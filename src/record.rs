use vstd::prelude::*;
use vstd::string::*;

use crate::decimal::{
    decimal, decimal_at, is_digit, lemma_decimal_delimited, lemma_padded_decimal, parse_digits,
    push_padded_decimal,
};

verus! {

/// The durable progress record: frames captured since the last day reset, and
/// when the record was created (seconds since the epoch).
#[derive(Clone, Copy, Debug, PartialEq, Eq)]
pub struct Status {
    pub index: u32,
    pub timestamp: i64,
}

pub open spec fn index_key() -> Seq<char> {
    seq!['i', 'n', 'd', 'e', 'x', ' ', '=', ' ']
}

pub open spec fn timestamp_key() -> Seq<char> {
    seq!['\n', 't', 'i', 'm', 'e', 's', 't', 'a', 'm', 'p', ' ', '=', ' ']
}

/// The decimal form of a signed integer, with a leading `-` when negative.
pub open spec fn signed_decimal(t: int) -> Seq<char> {
    if t < 0 {
        seq!['-'] + decimal((-t) as nat)
    } else {
        decimal(t as nat)
    }
}

/// The stored text of a record: one `key = value` line per field.
pub open spec fn record_text(index: nat, timestamp: int) -> Seq<char> {
    index_key() + decimal(index) + timestamp_key() + signed_decimal(timestamp) + seq!['\n']
}

pub open spec fn status_text(st: Status) -> Seq<char> {
    record_text(st.index as nat, st.timestamp as int)
}

/// What loading a text gives: the record whose stored text it is, and
/// nothing when it is the stored text of no record.
pub open spec fn loads(text: Seq<char>, r: Option<Status>) -> bool {
    &&& r matches Some(st) ==> status_text(st) == text
    &&& (exists|st: Status| status_text(st) == text) ==> r is Some
}

proof fn lemma_decimal_at_concat(pre: Seq<char>, n: nat, post: Seq<char>)
    requires
        post.len() == 0 || !is_digit(post[0]),
    ensures
        decimal_at(pre + decimal(n) + post, pre.len() as int, n),
{
    let s = pre + decimal(n) + post;
    let e: int = pre.len() + decimal(n).len() as int;
    assert(s.subrange(pre.len() as int, e) =~= decimal(n));
    if post.len() > 0 {
        assert(s[e] == post[0]);
    }
}

proof fn lemma_signed_decimal_first(t: int)
    ensures
        signed_decimal(t).len() >= 1,
        (signed_decimal(t)[0] == '-') == (t < 0),
{
    if t < 0 {
        lemma_padded_decimal((-t) as nat, 0);
    } else {
        lemma_padded_decimal(t as nat, 0);
        assert(is_digit(decimal(t as nat)[0]));
    }
}

/// A stored text followed by more text is the stored text of no other record.
proof fn lemma_text_extension(a: Status, b: Status, rest: Seq<char>)
    requires
        status_text(a) + rest == status_text(b),
    ensures
        a == b,
        rest.len() == 0,
{
    let (i1, t1) = (a.index as nat, a.timestamp as int);
    let (i2, t2) = (b.index as nat, b.timestamp as int);
    let whole = status_text(b);
    let x1 = timestamp_key() + signed_decimal(t1) + seq!['\n'] + rest;
    let x2 = timestamp_key() + signed_decimal(t2) + seq!['\n'];
    assert(whole =~= index_key() + (decimal(i1) + x1));
    assert(whole =~= index_key() + (decimal(i2) + x2));
    assert(decimal(i1) + x1 =~= whole.subrange(8, whole.len() as int));
    assert(decimal(i2) + x2 =~= whole.subrange(8, whole.len() as int));
    lemma_decimal_delimited(i1, i2, x1, x2);
    let y1 = signed_decimal(t1) + seq!['\n'] + rest;
    let y2 = signed_decimal(t2) + seq!['\n'];
    assert(y1 =~= x1.subrange(13, x1.len() as int));
    assert(y2 =~= x2.subrange(13, x2.len() as int));
    lemma_signed_decimal_first(t1);
    lemma_signed_decimal_first(t2);
    assert(y1[0] == signed_decimal(t1)[0]);
    assert(y2[0] == signed_decimal(t2)[0]);
    let z1 = seq!['\n'] + rest;
    let z2 = seq!['\n'];
    if t1 < 0 {
        assert(decimal((-t1) as nat) + z1 =~= y1.subrange(1, y1.len() as int));
        assert(decimal((-t2) as nat) + z2 =~= y2.subrange(1, y2.len() as int));
        lemma_decimal_delimited((-t1) as nat, (-t2) as nat, z1, z2);
    } else {
        assert(decimal(t1 as nat) + z1 =~= y1);
        assert(decimal(t2 as nat) + z2 =~= y2);
        lemma_decimal_delimited(t1 as nat, t2 as nat, z1, z2);
    }
    assert(z1.len() == z2.len());
}

/// Distinct records have distinct stored texts, so loading what was stored
/// gives back the record that was stored.
pub proof fn lemma_persist_round_trip(st: Status, loaded: Option<Status>)
    requires
        loads(status_text(st), loaded),
    ensures
        loaded == Some(st),
{
    let other = loaded.unwrap();
    assert(status_text(other) + Seq::<char>::empty() =~= status_text(st));
    lemma_text_extension(other, st, Seq::empty());
}

/// A stored text cut short anywhere loads as nothing.
pub proof fn lemma_truncated_text_rejected(st: Status, k: int, loaded: Option<Status>)
    requires
        0 <= k < status_text(st).len(),
        loads(status_text(st).subrange(0, k), loaded),
    ensures
        loaded is None,
{
    if loaded is Some {
        let other = loaded.unwrap();
        let whole = status_text(st);
        let rest = whole.subrange(k, whole.len() as int);
        assert(status_text(other) + rest =~= whole);
        lemma_text_extension(other, st, rest);
    }
}

impl Status {
    /// A fresh record with index 0, stamped with `timestamp`.
    pub fn new(timestamp: i64) -> (r: Status)
        ensures
            r.index == 0,
            r.timestamp == timestamp,
    {
        Status { index: 0, timestamp }
    }

    /// Starts a new day: the index goes back to 0, the timestamp stays.
    pub fn reset(&mut self)
        ensures
            final(self).index == 0,
            final(self).timestamp == old(self).timestamp,
    {
        self.index = 0;
    }

    /// Counts one more captured frame; at the top of the index range it stays there.
    pub fn inc(&mut self)
        ensures
            final(self).index == if old(self).index < u32::MAX {
                (old(self).index + 1) as u32
            } else {
                u32::MAX
            },
            final(self).timestamp == old(self).timestamp,
    {
        self.index = self.index.saturating_add(1);
    }

    pub fn get_index(&self) -> (r: u32)
        ensures
            r == self.index,
    {
        self.index
    }

    /// Writes the stored text of the record into `out`, replacing what it held.
    pub fn store_to(&self, out: &mut String)
        ensures
            final(out)@ == status_text(*self),
    {
        proof {
            reveal_strlit("index = ");
            reveal_strlit("\ntimestamp = ");
            reveal_strlit("-");
            reveal_strlit("\n");
        }
        let mut s = String::from_str("index = ");
        push_padded_decimal(&mut s, self.index as u64, 0);
        s.append("\ntimestamp = ");
        if self.timestamp < 0 {
            s.append("-");
            let magnitude: u64 = if self.timestamp == i64::MIN {
                9223372036854775808u64
            } else {
                (0 - self.timestamp) as u64
            };
            push_padded_decimal(&mut s, magnitude, 0);
        } else {
            push_padded_decimal(&mut s, self.timestamp as u64, 0);
        }
        s.append("\n");
        assert(s@ =~= status_text(*self));
        *out = s;
    }

    /// Reads a record from its stored text; any other text gives nothing.
    pub fn load(content: &str) -> (r: Option<Status>)
        ensures
            loads(content@, r),
    {
        let ghost wit: Status = choose|st: Status| status_text(st) == content@;
        let ghost canonical: bool = exists|st: Status| status_text(st) == content@;
        let ghost i: nat = wit.index as nat;
        let ghost t: int = wit.timestamp as int;
        let ghost k2: int = 8 + decimal(i).len() as int + 13;
        proof {
            if canonical {
                let pre = index_key();
                let post = timestamp_key() + signed_decimal(t) + seq!['\n'];
                assert(content@ =~= pre + decimal(i) + post);
                lemma_decimal_at_concat(pre, i, post);
                lemma_signed_decimal_first(t);
            }
        }
        let len = content.unicode_len();
        if len < 8 {
            return None;
        }
        let (index, e1) = match parse_digits(content, 8, u32::MAX as u64, Ghost(i)) {
            Some(p) => p,
            None => return None,
        };
        if len - e1 < 13 {
            return None;
        }
        let p2 = e1 + 13;
        assert(canonical ==> p2 == k2);
        let negative = p2 < len && content.get_char(p2) == '-';
        let ghost mag: nat = if t < 0 { (-t) as nat } else { t as nat };
        let start: usize = if negative { p2 + 1 } else { p2 };
        proof {
            if canonical {
                let pre = index_key() + decimal(i) + timestamp_key();
                assert(pre.len() == k2);
                if t < 0 {
                    let pre1 = pre + seq!['-'];
                    assert(content@ =~= pre1 + decimal(mag) + seq!['\n']);
                    assert(content@[k2] == '-');
                    lemma_decimal_at_concat(pre1, mag, seq!['\n']);
                } else {
                    assert(content@ =~= pre + decimal(mag) + seq!['\n']);
                    lemma_padded_decimal(mag, 0);
                    assert(content@[k2] == decimal(mag)[0]);
                    assert(is_digit(decimal(mag)[0]));
                    lemma_decimal_at_concat(pre, mag, seq!['\n']);
                }
            }
        }
        let limit: u64 = if negative { 9223372036854775808u64 } else { 9223372036854775807u64 };
        let (magnitude, _e2) = match parse_digits(content, start, limit, Ghost(mag)) {
            Some(p) => p,
            None => return None,
        };
        let timestamp: i64 = if !negative {
            magnitude as i64
        } else if magnitude == 9223372036854775808u64 {
            i64::MIN
        } else {
            0 - (magnitude as i64)
        };
        let candidate = Status { index: index as u32, timestamp };
        let mut text = String::new();
        candidate.store_to(&mut text);
        let given = String::from_str(content);
        if text == given {
            Some(candidate)
        } else {
            None
        }
    }
}

} // verus!
