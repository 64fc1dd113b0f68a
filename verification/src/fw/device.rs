//! The Pico's decisions around its hardware: why it woke, whether a USB
//! host is there, what the status line says, how a fetch is classified,
//! how long to nap, and the POWMAN register words it writes.

use vstd::prelude::*;
use crate::fw::panel::FRAME_BYTES;
use crate::text::{decimal, push_decimal, push_str, eq_ignore_case};

verus! {

/// Low 16 bits of scratch[0] while we are in a planned POWMAN nap.
pub const SLEEP_MAGIC: u32 = 0xF4AE;
/// POWMAN write password (upper half of every write).
pub const POWMAN_PASSWORD: u32 = 0x5AFE_0000;
/// SOF stops counting for this many 100 ms samples: the host is gone.
pub const SOF_DEAD_TICKS: u8 = 5;
/// Nap after a failed poll, when the server's sleep is longer.
pub const FAIL_SLEEP_S: u32 = 120;
/// Nap while the server asks the frame to stay awake (sleep 0).
pub const AWAKE_POLL_S: u32 = 60;

/// Why this boot happened and whether a USB host is attached.
pub struct WakeState {
    pub usb_host: bool,
    pub woke_from_sleep: bool,
    pub button_wake: bool,
}

/// `button`, `timer` or `cold`.
pub open spec fn label_of(button: bool, woke: bool) -> Seq<char> {
    if button {
        "button"@
    } else if woke {
        "timer"@
    } else {
        "cold"@
    }
}

impl WakeState {
    /// A USB host is sending SOFs.
    pub fn on_usb(&self) -> (r: bool)
        ensures
            r == self.usb_host,
    {
        self.usb_host
    }

    /// This boot is a wake from a planned nap.
    pub fn woke_from_sleep(&self) -> (r: bool)
        ensures
            r == self.woke_from_sleep,
    {
        self.woke_from_sleep
    }

    /// Current wake reason without consuming a pending button press.
    pub fn wake_label(&self) -> (r: &'static str)
        ensures
            r@ == label_of(self.button_wake, self.woke_from_sleep),
    {
        if self.button_wake {
            "button"
        } else if self.woke_from_sleep {
            "timer"
        } else {
            "cold"
        }
    }

    /// Like [`WakeState::wake_label`], but a button press is consumed.
    pub fn take_wake_label(&mut self) -> (r: &'static str)
        ensures
            r@ == label_of(old(self).button_wake, old(self).woke_from_sleep),
            !final(self).button_wake,
            final(self).woke_from_sleep == old(self).woke_from_sleep,
            final(self).usb_host == old(self).usb_host,
    {
        let label = self.wake_label();
        self.button_wake = false;
        label
    }

    /// Put `button` back if the poll that consumed it never reached the server.
    pub fn restore_button_wake(&mut self, label: &str)
        ensures
            final(self).button_wake == (old(self).button_wake || label@ == "button"@),
            final(self).woke_from_sleep == old(self).woke_from_sleep,
            final(self).usb_host == old(self).usb_host,
    {
        if crate::text::same_text(label, "button") {
            self.button_wake = true;
        }
    }

    /// The state at boot: slept when the nap marker or a switched-core power
    /// down is seen, and a button when a wake pin latched.
    pub fn at_boot(scratch0: u32, button_latched: bool, swcore_pd: bool) -> (r: WakeState)
        ensures
            !r.usb_host,
            r.woke_from_sleep == ((scratch0 & 0xffff) == SLEEP_MAGIC || swcore_pd),
            r.button_wake == button_latched,
    {
        WakeState {
            usb_host: false,
            woke_from_sleep: (scratch0 & 0xffff) == SLEEP_MAGIC || swcore_pd,
            button_wake: button_latched,
        }
    }
}

/// One 100 ms SOF sample: a moving count means a host (streak reset);
/// [`SOF_DEAD_TICKS`] frozen samples in a row mean none. Returns the new
/// streak and, when it is known, whether a host is present.
pub fn sof_step(last: u16, now: u16, dead_streak: u8) -> (r: (u8, Option<bool>))
    ensures
        last != now ==> r == (0u8, Some(true)),
        last == now ==> r.0 == (if dead_streak >= SOF_DEAD_TICKS {
            SOF_DEAD_TICKS
        } else {
            (dead_streak + 1) as u8
        }),
        last == now ==> r.1 == (if r.0 >= SOF_DEAD_TICKS {
            Some(false)
        } else {
            None
        }),
{
    if now != last {
        (0, Some(true))
    } else {
        let streak = if dead_streak >= SOF_DEAD_TICKS {
            SOF_DEAD_TICKS
        } else {
            dead_streak + 1
        };
        if streak >= SOF_DEAD_TICKS {
            (streak, Some(false))
        } else {
            (streak, None)
        }
    }
}

/// The word written to a POWMAN register: password high, value low.
pub fn powman_word(value: u32) -> (r: u32)
    ensures
        r == POWMAN_PASSWORD | (value & 0xffff),
{
    POWMAN_PASSWORD | (value & 0xffff)
}

/// A 64-bit AON time as the four 16-bit words POWMAN takes, lowest first.
pub fn time_words(value: u64) -> (r: [u32; 4])
    ensures
        r[0] == (value & 0xffff) as u32,
        r[1] == ((value >> 16) & 0xffff) as u32,
        r[2] == ((value >> 32) & 0xffff) as u32,
        r[3] == ((value >> 48) & 0xffff) as u32,
{
    [
        (value & 0xffff) as u32,
        ((value >> 16) & 0xffff) as u32,
        ((value >> 32) & 0xffff) as u32,
        ((value >> 48) & 0xffff) as u32,
    ]
}

/// The AON time from its upper and lower 32-bit reads.
pub fn time_of(upper: u32, lower: u32) -> (r: u64)
    ensures
        r == ((upper as u64) << 32u64) | (lower as u64),
{
    ((upper as u64) << 32u64) | (lower as u64)
}

/// The AON alarm for a nap of `delay_ms` from `now_ms` (at least 1 ms, saturating).
pub fn alarm_at(now_ms: u64, delay_ms: u64) -> (r: u64)
    ensures
        r == if now_ms + (if delay_ms < 1 { 1 } else { delay_ms }) > u64::MAX {
            u64::MAX as int
        } else {
            now_ms + (if delay_ms < 1 { 1 } else { delay_ms })
        },
{
    let d = if delay_ms < 1 {
        1
    } else {
        delay_ms
    };
    if now_ms > u64::MAX - d {
        u64::MAX
    } else {
        now_ms + d
    }
}

/// Battery reading from the sum of eight 12-bit VSYS/3 samples.
pub open spec fn reading_of(sum: u32) -> (u32, u16) {
    let raw = sum / 8;
    let mv = (raw * 3 * 3300 / 4096) as u32;
    let pct: u16 = if mv >= 4200 {
        100
    } else if mv <= 3300 {
        0
    } else {
        ((mv - 3300) * 100 / 900) as u16
    };
    (mv, pct)
}

/// Millivolts and linear percent (3.3 V → 0, 4.2 V → 100) from the ADC sum.
pub fn sample_reading(sum: u32) -> (r: (u32, u16))
    requires
        sum <= 8 * 0xffff,
    ensures
        r == reading_of(sum),
{
    let raw = sum / 8;
    let mv = raw * 3 * 3300 / 4096;
    let pct: u16 = if mv >= 4200 {
        100
    } else if mv <= 3300 {
        0
    } else {
        ((mv - 3300) * 100 / (4200 - 3300)) as u16
    };
    (mv, pct)
}

/// Wi-Fi state shown on the status line.
#[derive(Clone, Copy, PartialEq, Eq, Debug)]
pub enum WifiStatus {
    Setup,
    Joining,
    Up,
    Fail,
}

/// Result of the last frame fetch.
#[derive(Clone, Copy, PartialEq, Eq, Debug)]
pub enum FrameStatus {
    /// No fetch yet.
    Nothing,
    /// A new frame was painted.
    Loaded,
    NotModified,
    Fail,
}

impl WifiStatus {
    /// The byte the status is kept as.
    pub fn code(self) -> (r: u8)
        ensures
            r == match self {
                WifiStatus::Setup => 0u8,
                WifiStatus::Joining => 1u8,
                WifiStatus::Up => 2u8,
                WifiStatus::Fail => 3u8,
            },
    {
        match self {
            WifiStatus::Setup => 0,
            WifiStatus::Joining => 1,
            WifiStatus::Up => 2,
            WifiStatus::Fail => 3,
        }
    }

    /// The status a byte holds; unknown bytes read as `Setup`.
    pub fn from_code(c: u8) -> (r: WifiStatus)
        ensures
            r == if c == 1 {
                WifiStatus::Joining
            } else if c == 2 {
                WifiStatus::Up
            } else if c == 3 {
                WifiStatus::Fail
            } else {
                WifiStatus::Setup
            },
    {
        if c == 1 {
            WifiStatus::Joining
        } else if c == 2 {
            WifiStatus::Up
        } else if c == 3 {
            WifiStatus::Fail
        } else {
            WifiStatus::Setup
        }
    }
}

impl FrameStatus {
    /// The byte the status is kept as.
    pub fn code(self) -> (r: u8)
        ensures
            r == match self {
                FrameStatus::Nothing => 0u8,
                FrameStatus::Loaded => 1u8,
                FrameStatus::NotModified => 2u8,
                FrameStatus::Fail => 3u8,
            },
    {
        match self {
            FrameStatus::Nothing => 0,
            FrameStatus::Loaded => 1,
            FrameStatus::NotModified => 2,
            FrameStatus::Fail => 3,
        }
    }

    /// The status a byte holds; unknown bytes read as `None`.
    pub fn from_code(c: u8) -> (r: FrameStatus)
        ensures
            r == if c == 1 {
                FrameStatus::Loaded
            } else if c == 2 {
                FrameStatus::NotModified
            } else if c == 3 {
                FrameStatus::Fail
            } else {
                FrameStatus::Nothing
            },
    {
        if c == 1 {
            FrameStatus::Loaded
        } else if c == 2 {
            FrameStatus::NotModified
        } else if c == 3 {
            FrameStatus::Fail
        } else {
            FrameStatus::Nothing
        }
    }
}

/// Wi-Fi is joined.
pub fn is_up(wifi: WifiStatus) -> (r: bool)
    ensures
        r == (wifi == WifiStatus::Up),
{
    match wifi {
        WifiStatus::Up => true,
        _ => false,
    }
}

/// Last IPv4 octet, when the stored value is one.
pub fn last_octet(v: u16) -> (r: Option<u8>)
    ensures
        v <= 255 ==> r == Some(v as u8),
        v > 255 ==> r is None,
{
    if v <= 255 {
        Some(v as u8)
    } else {
        None
    }
}

/// The frame part of the status line.
pub open spec fn frame_word(f: FrameStatus) -> Seq<char> {
    match f {
        FrameStatus::Loaded => "200"@,
        FrameStatus::NotModified => "204"@,
        FrameStatus::Fail => "fail"@,
        FrameStatus::Nothing => Seq::empty(),
    }
}

/// The OLED / CLI status line.
pub open spec fn status_line_of(wifi: WifiStatus, frame: FrameStatus, octet: Option<u8>) -> Seq<char> {
    match wifi {
        WifiStatus::Joining => "wifi: joining"@,
        WifiStatus::Fail => "wifi fail"@,
        WifiStatus::Setup => "USB: wifi/save"@,
        WifiStatus::Up => match octet {
            Some(n) => if frame_word(frame).len() == 0 {
                "wifi ."@ + decimal(n as nat)
            } else {
                "wifi ."@ + decimal(n as nat) + " "@ + frame_word(frame)
            },
            None => if frame_word(frame).len() == 0 {
                "wifi ok"@
            } else {
                "wifi "@ + frame_word(frame)
            },
        },
    }
}

pub fn status_line(wifi: WifiStatus, frame: FrameStatus, octet: Option<u8>) -> (r: String)
    ensures
        r@ == status_line_of(wifi, frame, octet),
{
    let mut s = String::new();
    match wifi {
        WifiStatus::Joining => push_str(&mut s, "wifi: joining"),
        WifiStatus::Fail => push_str(&mut s, "wifi fail"),
        WifiStatus::Setup => push_str(&mut s, "USB: wifi/save"),
        WifiStatus::Up => {
            let (word, empty) = match frame {
                FrameStatus::Loaded => ("200", false),
                FrameStatus::NotModified => ("204", false),
                FrameStatus::Fail => ("fail", false),
                FrameStatus::Nothing => ("", true),
            };
            proof {
                reveal_strlit("");
                reveal_strlit("200");
                reveal_strlit("204");
                reveal_strlit("fail");
            }
            assert(word@ == frame_word(frame));
            match octet {
                Some(n) => {
                    push_str(&mut s, "wifi .");
                    push_decimal(&mut s, n as u64);
                    if !empty {
                        push_str(&mut s, " ");
                        push_str(&mut s, word);
                    }
                },
                None => {
                    if empty {
                        push_str(&mut s, "wifi ok");
                    } else {
                        push_str(&mut s, "wifi ");
                        push_str(&mut s, word);
                    }
                },
            }
        },
    }
    s
}

/// Outcome of a frame request as the main loop sees it.
#[derive(Clone, Copy, PartialEq, Eq, Debug)]
pub enum FrameResult {
    /// A whole new frame arrived.
    Loaded,
    NotModified,
    /// The fetch failed.
    Failed,
}

/// How a finished response is classified: 204/304 unchanged, 200 with a
/// whole frame new, anything else a failure; with the status to show.
pub fn classify_response(status: u16, body_len: usize) -> (r: (FrameResult, FrameStatus))
    ensures
        (status == 204 || status == 304) ==> r == (FrameResult::NotModified, FrameStatus::NotModified),
        status == 200 && body_len == FRAME_BYTES ==> r == (FrameResult::Loaded, FrameStatus::Loaded),
        !(status == 204 || status == 304) && !(status == 200 && body_len == FRAME_BYTES) ==> r == (
            FrameResult::Failed,
            FrameStatus::Fail,
        ),
{
    if status == 204 || status == 304 {
        (FrameResult::NotModified, FrameStatus::NotModified)
    } else if status == 200 && body_len == FRAME_BYTES {
        (FrameResult::Loaded, FrameStatus::Loaded)
    } else {
        (FrameResult::Failed, FrameStatus::Fail)
    }
}

/// Seconds to nap after a poll: stay-awake polling when the server says 0,
/// the failure back-off after failures, else the server's sleep.
pub fn next_sleep(sleep_s: u32, fails: u32) -> (r: u32)
    ensures
        r == if sleep_s == 0 {
            AWAKE_POLL_S
        } else if fails > 0 && sleep_s > FAIL_SLEEP_S {
            FAIL_SLEEP_S
        } else {
            sleep_s
        },
{
    if sleep_s == 0 {
        AWAKE_POLL_S
    } else if fails > 0 && sleep_s > FAIL_SLEEP_S {
        FAIL_SLEEP_S
    } else {
        sleep_s
    }
}

/// A new frame's checksum is stored when it is present and differs
/// (ASCII case-insensitively) from the stored one.
pub fn checksum_changed(etag: &str, stored: &str) -> (r: bool)
    ensures
        r == (etag@.len() > 0 && !eq_ignore_case(etag@, stored@)),
{
    if etag.is_empty() {
        return false;
    }
    let a = crate::text::chars_of(etag);
    let b = crate::text::chars_of(stored);
    !crate::text::eq_ignore_ascii_case(a.as_slice(), b.as_slice())
}

} // verus!
