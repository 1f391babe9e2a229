use vstd::prelude::*;
use vstd::string::*;

use chrono::{Datelike, Timelike};

use crate::decimal::{padded_decimal, push_padded_decimal};

verus! {

/// A moment on the machine's local clock, as calendar fields and as seconds
/// since the epoch.
#[derive(Clone, Copy, Debug, PartialEq, Eq)]
pub struct LocalStamp {
    pub year: i32,
    pub month: u32,
    pub day: u32,
    pub hour: u32,
    pub minute: u32,
    pub second: u32,
    pub epoch_seconds: i64,
}

impl LocalStamp {
    pub open spec fn wf(&self) -> bool {
        &&& 1 <= self.month <= 12
        &&& 1 <= self.day <= 31
        &&& self.hour < 24
        &&& self.minute < 60
        &&& self.second < 60
    }
}

/// Whether `now` falls on another calendar day than `last`.
pub open spec fn is_new_day(last: LocalStamp, now: LocalStamp) -> bool {
    last.year != now.year || last.month != now.month || last.day != now.day
}

/// A year as four digits; outside 0..=9999 with a sign in front.
pub open spec fn year_text(y: int) -> Seq<char> {
    if 0 <= y <= 9999 {
        padded_decimal(y as nat, 4)
    } else if y < 0 {
        seq!['-'] + padded_decimal((-y) as nat, 4)
    } else {
        seq!['+'] + padded_decimal(y as nat, 4)
    }
}

/// The file name of the video of stream `name` assembled at moment `t`:
/// `{name}_{dd}_{mm}_{yyyy}_{HH}_{MM}_{SS}.mp4`.
pub open spec fn video_name(name: Seq<char>, t: LocalStamp) -> Seq<char> {
    name + seq!['_'] + padded_decimal(t.day as nat, 2) + seq!['_'] + padded_decimal(
        t.month as nat,
        2,
    ) + seq!['_'] + year_text(t.year as int) + seq!['_'] + padded_decimal(t.hour as nat, 2)
        + seq!['_'] + padded_decimal(t.minute as nat, 2) + seq!['_'] + padded_decimal(
        t.second as nat,
        2,
    ) + seq!['.', 'm', 'p', '4']
}

/// Relies on chrono's `Local::now` and its `Datelike` / `Timelike` accessors:
/// month in 1..=12, day in 1..=31, hour below 24, minute and second below 60.
#[verifier::external_body]
fn local_now() -> (r: LocalStamp)
    ensures
        r.wf(),
{
    let t = chrono::Local::now();
    LocalStamp {
        year: t.year(),
        month: t.month(),
        day: t.day(),
        hour: t.hour(),
        minute: t.minute(),
        second: t.second(),
        epoch_seconds: t.timestamp(),
    }
}

/// Whether the day changed between the previous check at `last` and `now`.
pub fn day_changed(last: &LocalStamp, now: &LocalStamp) -> (r: bool)
    ensures
        r == is_new_day(*last, *now),
{
    last.year != now.year || last.month != now.month || last.day != now.day
}

/// The video file name of stream `name` for the moment `t`.
pub fn video_file_name(name: &str, t: &LocalStamp) -> (r: String)
    requires
        t.wf(),
    ensures
        r@ == video_name(name@, *t),
{
    proof {
        reveal_strlit("_");
        reveal_strlit("-");
        reveal_strlit("+");
        reveal_strlit(".mp4");
    }
    let mut s = String::from_str(name);
    s.append("_");
    push_padded_decimal(&mut s, t.day as u64, 2);
    s.append("_");
    push_padded_decimal(&mut s, t.month as u64, 2);
    s.append("_");
    if 0 <= t.year && t.year <= 9999 {
        push_padded_decimal(&mut s, t.year as u64, 4);
    } else if t.year < 0 {
        s.append("-");
        push_padded_decimal(&mut s, (0 - (t.year as i64)) as u64, 4);
    } else {
        s.append("+");
        push_padded_decimal(&mut s, t.year as u64, 4);
    }
    s.append("_");
    push_padded_decimal(&mut s, t.hour as u64, 2);
    s.append("_");
    push_padded_decimal(&mut s, t.minute as u64, 2);
    s.append("_");
    push_padded_decimal(&mut s, t.second as u64, 2);
    s.append(".mp4");
    assert(s@ =~= video_name(name@, *t));
    s
}

/// The video file name of stream `name` for the present moment of the local clock.
pub fn gen_video_name(name: &str) -> (r: String)
    ensures
        exists|t: LocalStamp| t.wf() && r@ == video_name(name@, t),
{
    let now = local_now();
    video_file_name(name, &now)
}

} // verus!
