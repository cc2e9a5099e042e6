//! Recorder settings and what follows from them.

use vstd::prelude::*;

use crate::paths::{is_plain_component, path_join, path_joined};
use crate::text::{chars_eq, str_chars};

verus! {

/// Fallback capture width when the WoW window can't be measured.
pub const FALLBACK_WIDTH: u32 = 1920;

/// Fallback capture height when the WoW window can't be measured.
pub const FALLBACK_HEIGHT: u32 = 1080;

/// Persistent configuration.
pub struct Config {
    /// WoW `Logs` directory to watch. Empty = auto-detect at startup.
    pub log_directory: String,
    /// Where recordings and their metadata sidecars are written.
    pub output_directory: String,
    pub fps: u32,
    /// 0–100, higher = better quality (maps to the encoder's CQP).
    pub quality: u32,
    /// Output downscale: "raw" (match the game), "1440p", "1080p", "720p".
    pub output_mode: String,
    /// Audio capture: "off" | "desktop" (no mic) | "desktop_mic" | "game".
    pub audio_mode: String,
    /// Seconds to keep recording after `CHALLENGE_MODE_END` (loot/scoreboard).
    pub stop_delay_secs: u64,
}

/// The encoder CQP for a quality setting: quality above 100 counts as 100;
/// 0 gives 32 and 100 gives 16, lower meaning better.
pub open spec fn spec_cqp(quality: u32) -> int {
    let q = if quality < 100 {
        quality as int
    } else {
        100
    };
    32 - (q * 16) / 100
}

/// The output height that an output mode asks for; `None` for "raw" and any
/// mode not listed.
pub open spec fn target_height(mode: Seq<char>) -> Option<u32> {
    if mode == "1440p"@ {
        Some(1440u32)
    } else if mode == "1080p"@ {
        Some(1080u32)
    } else if mode == "720p"@ {
        Some(720u32)
    } else {
        None
    }
}

/// `n / d` rounded to the nearest integer, halves rounded up.
pub open spec fn round_div(n: int, d: int) -> int {
    (2 * n + d) / (2 * d)
}

/// The output resolution for input `(iw, ih)`: never upscales. Without a
/// target height, or when the input is no taller than the target (or has no
/// height), the input itself. Otherwise the target height, and the width
/// scaled by the same ratio, rounded and made even; should that width fall
/// below 2, a width of 2, or the input itself when it is narrower than 2.
pub open spec fn spec_output_resolution(mode: Seq<char>, iw: u32, ih: u32) -> (u32, u32) {
    match target_height(mode) {
        None => (iw, ih),
        Some(th) => if ih <= th || ih == 0 {
            (iw, ih)
        } else {
            let ow = round_div(iw * th, ih as int);
            let even = ow - ow % 2;
            if even < 2 {
                if iw < 2 {
                    (iw, ih)
                } else {
                    (2u32, th)
                }
            } else {
                (even as u32, th)
            }
        },
    }
}

/// The folder, inside the user's video folder, that recordings go to.
pub const RECORDINGS_FOLDER: &'static str = "WoW Recorder";

/// The directory that recordings go to by default: the user's video folder,
/// else the home folder, else `.`.
pub open spec fn default_output_base(video_dir: Option<Seq<char>>, home_dir: Option<Seq<char>>) -> Seq<char> {
    match video_dir {
        Some(v) => v,
        None => match home_dir {
            Some(h) => h,
            None => "."@,
        },
    }
}

/// The default output directory: [`RECORDINGS_FOLDER`] inside the video
/// folder `video_dir`, else the home folder `home_dir`, else `.`.
pub fn default_output_dir(video_dir: Option<String>, home_dir: Option<String>) -> (r: String)
    ensures
        ({
            let base = default_output_base(
                match video_dir {
                    Some(v) => Some(v@),
                    None => None,
                },
                match home_dir {
                    Some(h) => Some(h@),
                    None => None,
                },
            );
            path_joined(r@, base, RECORDINGS_FOLDER@)
        }),
{
    let base: String = match video_dir {
        Some(v) => v,
        None => match home_dir {
            Some(h) => h,
            None => ".".to_owned(),
        },
    };
    proof {
        reveal_strlit("WoW Recorder");
        assert(RECORDINGS_FOLDER@.len() == 12);
        assert(is_plain_component(RECORDINGS_FOLDER@));
    }
    path_join(base.as_str(), RECORDINGS_FOLDER)
}

impl Config {
    /// The settings a fresh install starts with, writing to `output_directory`.
    pub fn defaults(output_directory: String) -> (c: Config)
        ensures
            c.log_directory@.len() == 0,
            c.output_directory@ == output_directory@,
            c.fps == 30,
            c.quality == 70,
            c.output_mode@ == "1080p"@,
            c.audio_mode@ == "desktop"@,
            c.stop_delay_secs == 5,
    {
        Config {
            log_directory: String::new(),
            output_directory,
            fps: 30,
            quality: 70,
            output_mode: "1080p".to_owned(),
            audio_mode: "desktop".to_owned(),
            stop_delay_secs: 5,
        }
    }

    /// Where recordings and their metadata sidecars are written.
    pub fn output_dir(&self) -> (r: String)
        ensures
            r@ == self.output_directory@,
    {
        self.output_directory.clone()
    }

    /// Encoder CQP value (lower = better). Quality 0→32, 100→16.
    pub fn cqp(&self) -> (r: u32)
        ensures
            r == spec_cqp(self.quality),
            16 <= r <= 32,
    {
        let q = if self.quality < 100 {
            self.quality
        } else {
            100
        };
        32 - (q * 16 / 100)
    }

    /// Output resolution given the captured input resolution. Never upscales.
    pub fn output_resolution(&self, input: (u32, u32)) -> (r: (u32, u32))
        ensures
            r == spec_output_resolution(self.output_mode@, input.0, input.1),
            r.0 <= input.0,
            r.1 <= input.1,
    {
        proof {
            law_output_never_upscales(self.output_mode@, input.0, input.1);
        }
        let (iw, ih) = input;
        let mode = str_chars(self.output_mode.as_str());
        let target_h: u32 = if chars_eq(&mode, &str_chars("1440p")) {
            1440
        } else if chars_eq(&mode, &str_chars("1080p")) {
            1080
        } else if chars_eq(&mode, &str_chars("720p")) {
            720
        } else {
            return input;
        };
        if ih <= target_h || ih == 0 {
            return input;
        }
        let num: u64 = (iw as u64) * (target_h as u64);
        let ow: u64 = (2 * num + (ih as u64)) / (2 * (ih as u64));
        proof {
            assert(ow == round_div(iw * target_h, ih as int));
            assert(ow <= iw) by (nonlinear_arith)
                requires
                    ow == (2 * num + ih) / (2 * (ih as int)),
                    num == iw * target_h,
                    target_h < ih,
            ;
        }
        let even = ow - ow % 2;
        if even < 2 {
            if iw < 2 {
                return input;
            }
            return (2, target_h);
        }
        (even as u32, target_h)
    }
}

/// Quality maps onto CQP 32 (quality 0) down to 16 (quality 100 and above):
/// always within 16..=32, better quality never gives a larger CQP, and below
/// 100 the CQP is 32 less the whole part of 16 per cent of the quality.
pub proof fn law_cqp_range_and_order(q1: u32, q2: u32)
    ensures
        16 <= spec_cqp(q1) <= 32,
        spec_cqp(0) == 32,
        spec_cqp(100) == 16,
        q1 <= q2 ==> spec_cqp(q2) <= spec_cqp(q1),
        q1 <= 100 ==> 100 * (32 - spec_cqp(q1)) <= 16 * q1 < 100 * (32 - spec_cqp(q1)) + 100,
{
    let a = if q1 < 100 {
        q1 as int
    } else {
        100
    };
    let b = if q2 < 100 {
        q2 as int
    } else {
        100
    };
    assert(0 <= (a * 16) / 100 <= 16) by (nonlinear_arith)
        requires
            0 <= a <= 100,
    ;
    assert(a <= b ==> (a * 16) / 100 <= (b * 16) / 100) by (nonlinear_arith)
        requires
            0 <= a,
            0 <= b,
    ;
}

/// The output never upscales: neither its width nor its height exceeds the
/// input's. When the input is scaled down, the width is even and at least 2.
pub proof fn law_output_never_upscales(mode: Seq<char>, iw: u32, ih: u32)
    ensures
        spec_output_resolution(mode, iw, ih).1 <= ih,
        spec_output_resolution(mode, iw, ih).0 <= iw,
        spec_output_resolution(mode, iw, ih) != (iw, ih) ==> spec_output_resolution(
            mode,
            iw,
            ih,
        ).0 % 2 == 0 && spec_output_resolution(mode, iw, ih).0 >= 2,
{
    match target_height(mode) {
        None => {},
        Some(th) => {
            if !(ih <= th || ih == 0) {
                let num = iw * th;
                let ow = round_div(num, ih as int);
                assert(0 <= ow <= iw) by (nonlinear_arith)
                    requires
                        ow == (2 * num + ih) / (2 * (ih as int)),
                        num == iw * th,
                        th < ih,
                        0 <= iw,
                ;
            }
        },
    }
}

/// A scaled-down output keeps the input's aspect ratio: the height is the
/// target height (unless the input is narrower than 2 and kept), and whenever the exactly scaled width `iw * th / ih` is at
/// least 2, the output width is within 1.5 of it (rounded, then made even).
pub proof fn law_output_keeps_aspect_ratio(mode: Seq<char>, iw: u32, ih: u32, th: u32)
    requires
        target_height(mode) == Some(th),
        th < ih,
    ensures
        iw >= 2 ==> spec_output_resolution(mode, iw, ih).1 == th,
        iw * th >= 2 * ih ==> {
            let w = spec_output_resolution(mode, iw, ih).0;
            &&& 2 * (ih * w - iw * th) <= 3 * ih
            &&& 2 * (iw * th - ih * w) <= 3 * ih
        },
{
    law_output_never_upscales(mode, iw, ih);
    let n = iw * th;
    let ow = round_div(n, ih as int);
    assert(-(ih as int) < 2 * ih * ow - 2 * n <= ih) by (nonlinear_arith)
        requires
            ow == (2 * n + ih) / (2 * (ih as int)),
            ih > 0,
    ;
    if n >= 2 * ih {
        assert(ow >= 2) by (nonlinear_arith)
            requires
                ow == (2 * n + ih) / (2 * (ih as int)),
                ih > 0,
                n >= 2 * ih,
        ;
        let r = ow % 2;
        let even = ow - r;
        assert(0 <= r <= 1) by (nonlinear_arith)
            requires
                r == ow % 2,
        ;
        assert(ow <= iw) by (nonlinear_arith)
            requires
                ow == (2 * n + ih) / (2 * (ih as int)),
                n == iw * th,
                th < ih,
        ;
        assert(ih * even == ih * ow - ih * r) by (nonlinear_arith)
            requires
                even == ow - r,
        ;
        assert(0 <= ih * r <= ih) by (nonlinear_arith)
            requires
                0 <= r <= 1,
                ih > 0,
        ;
        assert(even >= 2);
        assert(spec_output_resolution(mode, iw, ih).0 == even);
        assert(2 * (ih * even - n) <= 3 * ih && 2 * (n - ih * even) <= 3 * ih) by (nonlinear_arith)
            requires
                -(ih as int) < 2 * ih * ow - 2 * n <= ih,
                ih * even == ih * ow - ih * r,
                0 <= ih * r <= ih,
        ;
    }
}

} // verus!
