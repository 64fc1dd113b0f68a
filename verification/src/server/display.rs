//! What the frame shows and when it polls: the display mode, the photo
//! rotation, and a stored schedule for each mode (poll interval, wake-up
//! times, and which of the two the Pico follows). Picture mode inherits the
//! dashboard's schedule until the family UI saves one for it.

use vstd::prelude::*;
use crate::server::config::{
    frame_mode_of, schedule_kind_of, setting_key, FrameMode, PublicSchedule, ScheduleKind,
    SettingsPatch,
};
use crate::server::frame::UtcStamp;
use crate::server::schedule::{poll_secs, schedulable, seconds_until_next_poll};
use crate::server::wakes::{
    format_public_wake_list, format_wake_days, parse_wake_list, public_week_of, sorted_set_of,
    wake_list_of, weekly_from_public_days, WakeTime, WeeklyWakes,
};

verus! {

/// Photo mode settings: the rotation and picture mode's own schedule,
/// each part `None` while it inherits the dashboard's.
pub struct PicturesConfig {
    pub rotate: Vec<String>,
    pub poll_interval_secs: Option<u64>,
    pub wake_up: Option<WeeklyWakes>,
    pub schedule_kind: Option<ScheduleKind>,
}

/// The display settings: mode, dashboard schedule, picture settings.
pub struct DisplayConfig {
    pub mode: FrameMode,
    pub poll_interval_secs: u64,
    pub wake_up: WeeklyWakes,
    pub schedule_kind: Option<ScheduleKind>,
    pub pictures: PicturesConfig,
}

/// No wake-up time on any day.
pub open spec fn week_empty(w: Seq<Seq<WakeTime>>) -> bool {
    forall|i: int| 0 <= i < 7 ==> (#[trigger] w[i]).len() == 0
}

/// The schedule kind in force: the stored one, else wake times when there
/// are any and the interval when there are none.
pub open spec fn kind_of(kind: Option<ScheduleKind>, w: Seq<Seq<WakeTime>>) -> ScheduleKind {
    match kind {
        Some(k) => k,
        None => if week_empty(w) {
            ScheduleKind::Interval
        } else {
            ScheduleKind::Times
        },
    }
}

impl DisplayConfig {
    /// The poll interval `mode` follows.
    pub open spec fn stored_interval(self, mode: FrameMode) -> u64 {
        match mode {
            FrameMode::Dashboard => self.poll_interval_secs,
            FrameMode::Picture => match self.pictures.poll_interval_secs {
                Some(s) => s,
                None => self.poll_interval_secs,
            },
        }
    }

    /// The wake-up times `mode` keeps.
    pub open spec fn stored_wakes(self, mode: FrameMode) -> Seq<Seq<WakeTime>> {
        match mode {
            FrameMode::Dashboard => self.wake_up@,
            FrameMode::Picture => match self.pictures.wake_up {
                Some(w) => w@,
                None => self.wake_up@,
            },
        }
    }

    /// Which of the two `mode` follows.
    pub open spec fn stored_kind(self, mode: FrameMode) -> ScheduleKind {
        match mode {
            FrameMode::Dashboard => kind_of(self.schedule_kind, self.wake_up@),
            FrameMode::Picture => kind_of(self.pictures.schedule_kind, self.stored_wakes(FrameMode::Picture)),
        }
    }

    /// The mode actually shown: picture mode without photos shows the dashboard.
    pub fn effective_mode(&self) -> (r: FrameMode)
        ensures
            r == (if self.mode == FrameMode::Picture && self.pictures.rotate@.len() == 0 {
                FrameMode::Dashboard
            } else {
                self.mode
            }),
    {
        match self.mode {
            FrameMode::Picture => if self.pictures.rotate.len() == 0 {
                FrameMode::Dashboard
            } else {
                FrameMode::Picture
            },
            FrameMode::Dashboard => FrameMode::Dashboard,
        }
    }

    /// Interval, wake-up times and schedule kind stored for `mode`.
    pub fn mode_schedule(&self, mode: FrameMode) -> (r: (u64, &WeeklyWakes, ScheduleKind))
        ensures
            r.0 == self.stored_interval(mode),
            r.1@ == self.stored_wakes(mode),
            r.2 == self.stored_kind(mode),
    {
        let (interval, wakes, kind) = match mode {
            FrameMode::Dashboard => (self.poll_interval_secs, &self.wake_up, self.schedule_kind),
            FrameMode::Picture => {
                let i = match self.pictures.poll_interval_secs {
                    Some(s) => s,
                    None => self.poll_interval_secs,
                };
                let w = match &self.pictures.wake_up {
                    Some(w) => w,
                    None => &self.wake_up,
                };
                (i, w, self.pictures.schedule_kind)
            },
        };
        let k = match kind {
            Some(k) => k,
            None => if wakes.is_empty() {
                ScheduleKind::Interval
            } else {
                ScheduleKind::Times
            },
        };
        (interval, wakes, k)
    }

    /// What the Pico follows in `mode`: the interval, and the wake-up times
    /// only when that mode's kind selects them.
    pub fn schedule(&self, mode: FrameMode) -> (r: (u64, Option<&WeeklyWakes>))
        ensures
            r.0 == self.stored_interval(mode),
            self.stored_kind(mode) == ScheduleKind::Interval ==> r.1 is None,
            self.stored_kind(mode) == ScheduleKind::Times ==> (r.1 matches Some(w) && w@ == self.stored_wakes(mode)),
    {
        let (interval, wakes, kind) = self.mode_schedule(mode);
        match kind {
            ScheduleKind::Interval => (interval, None),
            ScheduleKind::Times => (interval, Some(wakes)),
        }
    }

    /// The wake-up times the Pico follows in `mode`: the stored ones when
    /// that mode's kind selects them, else none.
    pub open spec fn followed_wakes(self, mode: FrameMode) -> Seq<Seq<WakeTime>> {
        if self.stored_kind(mode) == ScheduleKind::Times {
            self.stored_wakes(mode)
        } else {
            Seq::new(7, |i: int| Seq::<WakeTime>::empty())
        }
    }

    /// Wall-clock seconds until the next poll of the mode shown, with the
    /// household's zone `tz`: the next wake-up slot when that mode follows
    /// wake-up times and has one, else its interval.
    pub fn next_poll_secs(&self, now: UtcStamp, tz: &str) -> (r: u64)
        requires
            schedulable(now),
        ensures
            ({
                let m = if self.mode == FrameMode::Picture && self.pictures.rotate@.len() == 0 {
                    FrameMode::Dashboard
                } else {
                    self.mode
                };
                r == poll_secs(now, tz@, self.stored_interval(m), self.followed_wakes(m))
            }),
    {
        let mode = self.effective_mode();
        let (interval, wakes) = self.schedule(mode);
        match wakes {
            Some(w) => seconds_until_next_poll(now, tz, interval, w),
            None => {
                let none = WeeklyWakes::empty();
                seconds_until_next_poll(now, tz, interval, &none)
            },
        }
    }

    /// The schedule of `mode` as the family UI shows it.
    pub fn public_schedule(&self, mode: FrameMode) -> (r: PublicSchedule)
        ensures
            r.poll_interval_secs == self.stored_interval(mode),
            r.schedule_kind@ == self.stored_kind(mode).name(),
    {
        let (interval, wakes, kind) = self.mode_schedule(mode);
        PublicSchedule {
            poll_interval_secs: interval,
            wake_up: format_public_wake_list(wakes),
            wake_up_by_day: format_wake_days(wakes),
            schedule_kind: kind.as_str().to_string(),
        }
    }

    /// Store picture mode's inherited schedule as its own, so a later
    /// dashboard edit no longer carries over.
    pub fn materialize_pictures_schedule(&mut self)
        ensures
            final(self).mode == old(self).mode,
            final(self).poll_interval_secs == old(self).poll_interval_secs,
            final(self).wake_up == old(self).wake_up,
            final(self).schedule_kind == old(self).schedule_kind,
            final(self).pictures.rotate == old(self).pictures.rotate,
            final(self).pictures.poll_interval_secs == Some(old(self).stored_interval(FrameMode::Picture)),
            final(self).pictures.wake_up matches Some(w) && w@ == old(self).stored_wakes(FrameMode::Picture),
            final(self).pictures.schedule_kind == (if old(self).pictures.schedule_kind is None
                && old(self).pictures.wake_up is None {
                Some(old(self).stored_kind(FrameMode::Dashboard))
            } else {
                old(self).pictures.schedule_kind
            }),
    {
        if self.pictures.poll_interval_secs.is_none() {
            self.pictures.poll_interval_secs = Some(self.poll_interval_secs);
        }
        let inheriting_wakes = self.pictures.wake_up.is_none();
        if inheriting_wakes {
            self.pictures.wake_up = Some(self.wake_up.duplicate());
        }
        if self.pictures.schedule_kind.is_none() && inheriting_wakes {
            let (_, _, kind) = self.mode_schedule(FrameMode::Dashboard);
            self.pictures.schedule_kind = Some(kind);
        }
    }

    /// Change the stored schedule of `mode`; the other mode's is untouched.
    /// A kind not given follows new wake-up times (interval when empty).
    pub fn set_schedule(
        &mut self,
        mode: FrameMode,
        interval: Option<u64>,
        wakes: Option<WeeklyWakes>,
        kind: Option<ScheduleKind>,
    ) -> (r: Result<(), String>)
        ensures
            interval == Some(0u64) ==> (r matches Err(e) && e@ == "poll_interval_secs must be at least 1"@
                && *final(self) == *old(self)),
            interval != Some(0u64) ==> r is Ok,
            final(self).mode == old(self).mode,
            final(self).pictures.rotate == old(self).pictures.rotate,
            r is Ok ==> ({
                let k = match kind {
                    Some(k) => Some(k),
                    None => match wakes {
                        Some(w) => Some(if week_empty(w@) { ScheduleKind::Interval } else { ScheduleKind::Times }),
                        None => None,
                    },
                };
                match mode {
                    FrameMode::Dashboard => {
                        &&& final(self).poll_interval_secs == (match interval { Some(s) => s, None => old(self).poll_interval_secs })
                        &&& final(self).wake_up@ == (match wakes { Some(w) => w@, None => old(self).wake_up@ })
                        &&& final(self).schedule_kind == (match k { Some(k) => Some(k), None => old(self).schedule_kind })
                        &&& final(self).pictures == old(self).pictures
                    },
                    FrameMode::Picture => {
                        &&& final(self).pictures.poll_interval_secs == (match interval { Some(s) => Some(s), None => old(self).pictures.poll_interval_secs })
                        &&& (match wakes {
                            Some(w) => final(self).pictures.wake_up matches Some(p) && p@ == w@,
                            None => final(self).pictures.wake_up == old(self).pictures.wake_up,
                        })
                        &&& final(self).pictures.schedule_kind == (match k { Some(k) => Some(k), None => old(self).pictures.schedule_kind })
                        &&& final(self).poll_interval_secs == old(self).poll_interval_secs
                        &&& final(self).wake_up == old(self).wake_up
                        &&& final(self).schedule_kind == old(self).schedule_kind
                    },
                }
            }),
    {
        if let Some(secs) = interval {
            if secs == 0 {
                return Err("poll_interval_secs must be at least 1".to_string());
            }
        }
        let kind = match kind {
            Some(k) => Some(k),
            None => match &wakes {
                Some(week) => Some(if week.is_empty() { ScheduleKind::Interval } else { ScheduleKind::Times }),
                None => None,
            },
        };
        match mode {
            FrameMode::Dashboard => {
                if let Some(secs) = interval {
                    self.poll_interval_secs = secs;
                }
                if let Some(times) = wakes {
                    self.wake_up = times;
                }
                if let Some(k) = kind {
                    self.schedule_kind = Some(k);
                }
            },
            FrameMode::Picture => {
                if let Some(secs) = interval {
                    self.pictures.poll_interval_secs = Some(secs);
                }
                if let Some(times) = wakes {
                    self.pictures.wake_up = Some(times);
                }
                if let Some(k) = kind {
                    self.pictures.schedule_kind = Some(k);
                }
            },
        }
        Ok(())
    }
}

/// The error text of an unknown mode or schedule kind.
pub open spec fn mode_error(s: Seq<char>) -> Seq<char> {
    "unknown mode `"@ + setting_key(s) + "` (use dashboard or picture)"@
}

pub open spec fn kind_error(s: Seq<char>) -> Seq<char> {
    "unknown schedule_kind `"@ + setting_key(s) + "` (use interval or times)"@
}

/// The patch edits a schedule.
pub open spec fn touches_schedule(p: SettingsPatch) -> bool {
    p.poll_interval_secs is Some || p.wake_up is Some || p.wake_up_by_day is Some || p.schedule_kind is Some
}

/// The week a patch sets, if any: the per-day table first, else one list
/// for every day; `Err` when an entry is not a time.
pub open spec fn patch_week(p: SettingsPatch) -> Option<Result<Seq<Seq<WakeTime>>, Seq<char>>> {
    match p.wake_up_by_day {
        Some(d) => Some(public_week_of(d)),
        None => match p.wake_up {
            Some(v) => Some(
                match wake_list_of(v@) {
                    Ok(ts) => Ok(Seq::new(7, |i: int| ts)),
                    Err(e) => Err(e),
                },
            ),
            None => None,
        },
    }
}

/// The mode after the patch: the one it names, else the current one.
pub open spec fn patched_mode(c: DisplayConfig, p: SettingsPatch) -> FrameMode {
    match p.mode {
        Some(s) => frame_mode_of(s@)->0,
        None => c.mode,
    }
}

/// The mode whose schedule the patch edits: `schedule_for`, else the mode
/// after the patch.
pub open spec fn schedule_target(c: DisplayConfig, p: SettingsPatch) -> FrameMode {
    match p.schedule_for {
        Some(s) => frame_mode_of(s@)->0,
        None => patched_mode(c, p),
    }
}

/// The first refusal of a display patch, in the order it is checked: the
/// mode, the schedule target, the wake-up times, the schedule kind, a zero
/// interval; then picture mode left without photos.
pub open spec fn display_error(c: DisplayConfig, p: SettingsPatch) -> Option<Seq<char>> {
    if p.mode is Some && frame_mode_of(p.mode->0@) is None {
        Some(mode_error(p.mode->0@))
    } else if p.schedule_for is Some && frame_mode_of(p.schedule_for->0@) is None {
        Some(mode_error(p.schedule_for->0@))
    } else if touches_schedule(p) && patch_week(p) matches Some(Err(e)) {
        Some(patch_week(p)->0->Err_0)
    } else if touches_schedule(p) && p.schedule_kind is Some && schedule_kind_of(p.schedule_kind->0@) is None {
        Some(kind_error(p.schedule_kind->0@))
    } else if touches_schedule(p) && p.poll_interval_secs == Some(0u64) {
        Some("poll_interval_secs must be at least 1"@)
    } else if patched_mode(c, p) == FrameMode::Picture && (match p.rotate {
        Some(r) => r@.len() == 0,
        None => c.pictures.rotate@.len() == 0,
    }) {
        Some("picture mode needs at least one photo in the rotation"@)
    } else {
        None
    }
}

/// The patch's schedule edit went through (nothing before it refused).
pub open spec fn schedule_applied(c: DisplayConfig, p: SettingsPatch) -> bool {
    &&& touches_schedule(p)
    &&& !(p.mode is Some && frame_mode_of(p.mode->0@) is None)
    &&& !(p.schedule_for is Some && frame_mode_of(p.schedule_for->0@) is None)
    &&& !(patch_week(p) matches Some(Err(_)))
    &&& !(p.schedule_kind is Some && schedule_kind_of(p.schedule_kind->0@) is None)
    &&& p.poll_interval_secs != Some(0u64)
}

fn copy_ids(v: &Vec<String>) -> (r: Vec<String>)
    ensures
        r@ == v@,
{
    let n = v.len();
    let mut out: Vec<String> = Vec::new();
    let mut i: usize = 0;
    while i < n
        invariant
            n == v@.len(),
            i <= n,
            out@ == v@.take(i as int),
        decreases n - i,
    {
        out.push(v[i].clone());
        assert(v@.take(i + 1) =~= v@.take(i as int).push(v@[i as int]));
        i = i + 1;
    }
    assert(v@.take(n as int) =~= v@);
    out
}

/// The display settings after a patch: the rotation and mode it names,
/// and the schedule of its target mode when the schedule edit went
/// through, the other mode's untouched.
pub open spec fn display_patched(old: DisplayConfig, new: DisplayConfig, patch: SettingsPatch) -> bool {
    &&& new.pictures.rotate@ == (match patch.rotate {
            Some(v) => v@,
            None => old.pictures.rotate@,
        })
    &&& new.mode == (if patch.mode is Some && frame_mode_of(patch.mode->0@) is Some {
            frame_mode_of(patch.mode->0@)->0
        } else {
            old.mode
        })
    &&& !schedule_applied(old, patch) ==> ({
            &&& new.poll_interval_secs == old.poll_interval_secs
            &&& new.wake_up == old.wake_up
            &&& new.schedule_kind == old.schedule_kind
            &&& new.pictures.poll_interval_secs == old.pictures.poll_interval_secs
            &&& new.pictures.wake_up == old.pictures.wake_up
            &&& new.pictures.schedule_kind == old.pictures.schedule_kind
        })
    &&& schedule_applied(old, patch) ==> ({
            let m = schedule_target(old, patch);
            let other = if m == FrameMode::Dashboard { FrameMode::Picture } else { FrameMode::Dashboard };
            let k = match patch.schedule_kind {
                Some(s) => Some(schedule_kind_of(s@)->0),
                None => match patch_week(patch) {
                    Some(_) => Some(if week_empty(new.stored_wakes(m)) {
                        ScheduleKind::Interval
                    } else {
                        ScheduleKind::Times
                    }),
                    None => None,
                },
            };
            &&& (match patch.poll_interval_secs {
                Some(s) => new.stored_interval(m) == s,
                None => new.stored_interval(m) == old.stored_interval(m),
            })
            &&& (match patch_week(patch) {
                Some(Ok(lists)) => forall|i: int| 0 <= i < 7 ==> sorted_set_of(
                    #[trigger] new.stored_wakes(m)[i],
                    lists[i],
                ),
                _ => new.stored_wakes(m) == old.stored_wakes(m),
            })
            &&& (match k {
                Some(k) => new.stored_kind(m) == k,
                None => m == FrameMode::Dashboard ==> new.schedule_kind == old.schedule_kind,
            })
            &&& (m == FrameMode::Picture ==> ({
                &&& new.poll_interval_secs == old.poll_interval_secs
                &&& new.wake_up == old.wake_up
                &&& new.schedule_kind == old.schedule_kind
            }))
            &&& (m == FrameMode::Dashboard ==> ({
                &&& new.pictures.poll_interval_secs == old.pictures.poll_interval_secs
                &&& new.pictures.wake_up == old.pictures.wake_up
                &&& new.pictures.schedule_kind == old.pictures.schedule_kind
            }))
        })
}

/// The week a patch sets, read.
fn patch_wakes(p: &SettingsPatch) -> (r: Result<Option<WeeklyWakes>, String>)
    ensures
        match (r, patch_week(*p)) {
            (Ok(None), None) => true,
            (Ok(Some(w)), Some(Ok(lists))) => w@.len() == 7 && lists.len() == 7 && forall|i: int|
                0 <= i < 7 ==> sorted_set_of(#[trigger] w@[i], lists[i]),
            (Err(m), Some(Err(e))) => m@ == e,
            _ => false,
        },
{
    if let Some(days) = &p.wake_up_by_day {
        return match weekly_from_public_days(days) {
            Ok(w) => Ok(Some(w)),
            Err(m) => Err(m),
        };
    }
    if let Some(times) = &p.wake_up {
        return match parse_wake_list(times.as_slice()) {
            Ok(ts) => {
                let w = WeeklyWakes::every_day(ts.as_slice());
                proof {
                    let tv = ts@;
                    assert forall|k: int| 0 <= k < 7 implies sorted_set_of(#[trigger] w@[k], Seq::new(7, |i: int| tv)[k]) by {}
                }
                Ok(Some(w))
            },
            Err(m) => Err(m),
        };
    }
    Ok(None)
}

impl DisplayConfig {
    /// Apply the display fields of a family-UI patch, in order: rotation,
    /// mode, the schedule of `schedule_for` (else of the mode), then refuse
    /// picture mode without photos. The first refusal stops the patch with
    /// its message; what came before it stays applied.
    pub fn apply_display_patch(&mut self, patch: &SettingsPatch) -> (r: Result<(), String>)
        ensures
            r is Ok <==> display_error(*old(self), *patch) is None,
            r matches Err(e) ==> display_error(*old(self), *patch) == Some(e@),
            display_patched(*old(self), *final(self), *patch),
    {
        let ghost start = *self;
        if let Some(rotate) = &patch.rotate {
            self.pictures.rotate = copy_ids(rotate);
        }
        if let Some(mode_s) = &patch.mode {
            self.mode = FrameMode::parse(mode_s.as_str())?;
        }
        let schedule_mode = match &patch.schedule_for {
            Some(s) => FrameMode::parse(s.as_str())?,
            None => self.mode,
        };
        if patch.poll_interval_secs.is_some() || patch.wake_up.is_some() || patch.wake_up_by_day.is_some()
            || patch.schedule_kind.is_some() {
            let wakes = patch_wakes(patch)?;
            let kind = match &patch.schedule_kind {
                Some(s) => Some(ScheduleKind::parse(s.as_str())?),
                None => None,
            };
            self.set_schedule(schedule_mode, patch.poll_interval_secs, wakes, kind)?;
        }
        let picture = match self.mode {
            FrameMode::Picture => true,
            FrameMode::Dashboard => false,
        };
        if picture && self.pictures.rotate.len() == 0 {
            return Err("picture mode needs at least one photo in the rotation".to_string());
        }
        Ok(())
    }
}

} // verus!
