use vstd::prelude::*;
use vstd::string::*;

use crate::decimal::{digits_value, lemma_padded_decimal, lemma_padded_len, padded_decimal, pow10, push_padded_decimal};

verus! {

/// Width to which frame indices are zero-padded, so that names sort in capture order.
pub const FRAME_INDEX_WIDTH: u64 = 8;

pub open spec fn frame_prefix() -> Seq<char> {
    seq!['i', 'm', 'g', '-']
}

pub open spec fn jpg_suffix() -> Seq<char> {
    seq!['.', 'j', 'p', 'g']
}

/// The file name of the frame with index `i`.
pub open spec fn frame_name(i: nat) -> Seq<char> {
    frame_prefix() + padded_decimal(i, FRAME_INDEX_WIDTH as nat) + jpg_suffix()
}

/// The name of the current-frame pointer of a stream.
pub open spec fn snapshot_name(instance: Seq<char>) -> Seq<char> {
    instance + jpg_suffix()
}

/// `a` comes strictly before `b` in lexicographic order of characters.
pub open spec fn lex_less(a: Seq<char>, b: Seq<char>) -> bool {
    exists|k: int|
        0 <= k < a.len() && k < b.len() && a.subrange(0, k) == b.subrange(0, k) && (a[k] as u32)
            < (b[k] as u32)
}

proof fn lemma_padded_lex(i: nat, j: nat, w: nat)
    requires
        i < j < pow10(w),
        w >= 1,
    ensures
        lex_less(padded_decimal(i, w), padded_decimal(j, w)),
    decreases w,
{
    let a = padded_decimal(i, w);
    let b = padded_decimal(j, w);
    lemma_padded_len(i, w);
    lemma_padded_len(j, w);
    if w == 1 {
        assert(a.subrange(0, 0) =~= b.subrange(0, 0));
        assert((a[0] as u32) < (b[0] as u32));
    } else {
        let pa = padded_decimal(i / 10, (w - 1) as nat);
        let pb = padded_decimal(j / 10, (w - 1) as nat);
        assert(pow10(w) == 10 * pow10((w - 1) as nat));
        assert(i / 10 <= j / 10);
        assert(j / 10 < pow10((w - 1) as nat));
        lemma_padded_len(i / 10, (w - 1) as nat);
        lemma_padded_len(j / 10, (w - 1) as nat);
        if i / 10 < j / 10 {
            lemma_padded_lex(i / 10, j / 10, (w - 1) as nat);
            let k = choose|k: int|
                0 <= k < pa.len() && k < pb.len() && pa.subrange(0, k) == pb.subrange(0, k) && (
                pa[k] as u32) < (pb[k] as u32);
            assert(a.subrange(0, k) =~= pa.subrange(0, k));
            assert(b.subrange(0, k) =~= pb.subrange(0, k));
            assert(a[k] == pa[k]);
            assert(b[k] == pb[k]);
        } else {
            assert(i % 10 < j % 10);
            let k = (w - 1) as int;
            assert(a.subrange(0, k) =~= pa);
            assert(b.subrange(0, k) =~= pb);
        }
    }
}

proof fn lemma_lex_frame(x: Seq<char>, y: Seq<char>)
    requires
        lex_less(x, y),
        x.len() == y.len(),
    ensures
        lex_less(frame_prefix() + x + jpg_suffix(), frame_prefix() + y + jpg_suffix()),
{
    let a = frame_prefix() + x + jpg_suffix();
    let b = frame_prefix() + y + jpg_suffix();
    let k = choose|k: int|
        0 <= k < x.len() && k < y.len() && x.subrange(0, k) == y.subrange(0, k) && (x[k] as u32) < (
        y[k] as u32);
    assert(a.subrange(0, 4 + k) =~= frame_prefix() + x.subrange(0, k));
    assert(b.subrange(0, 4 + k) =~= frame_prefix() + y.subrange(0, k));
    assert(a[4 + k] == x[k]);
    assert(b[4 + k] == y[k]);
}

/// Frame names are unique for every index: distinct indices give distinct names.
pub proof fn lemma_frame_name_unique(i: nat, j: nat)
    requires
        i != j,
    ensures
        frame_name(i) != frame_name(j),
{
    let w = FRAME_INDEX_WIDTH as nat;
    if frame_name(i) == frame_name(j) {
        lemma_padded_decimal(i, w);
        lemma_padded_decimal(j, w);
        let pi = padded_decimal(i, w);
        let pj = padded_decimal(j, w);
        assert(frame_name(i).len() == frame_name(j).len());
        assert(pi =~= frame_name(i).subrange(4, 4 + pi.len() as int));
        assert(pj =~= frame_name(j).subrange(4, 4 + pj.len() as int));
        assert(digits_value(pi) == digits_value(pj));
    }
}

/// For indices below 10^8 frame names have a fixed width of 16 characters,
/// and their lexicographic order is the numeric order of the indices.
pub proof fn lemma_frame_names_sorted(i: nat, j: nat)
    requires
        i < j <= 99_999_999,
    ensures
        frame_name(i).len() == 16,
        frame_name(j).len() == 16,
        lex_less(frame_name(i), frame_name(j)),
{
    let w = FRAME_INDEX_WIDTH as nat;
    reveal_with_fuel(pow10, 9);
    assert(pow10(w) == 100_000_000);
    lemma_padded_len(i, w);
    lemma_padded_len(j, w);
    lemma_padded_lex(i, j, w);
    lemma_lex_frame(padded_decimal(i, w), padded_decimal(j, w));
}

/// The file name under which the frame with index `index` is stored.
pub fn frame_file_name(index: u32) -> (r: String)
    ensures
        r@ == frame_name(index as nat),
{
    proof {
        reveal_strlit("img-");
        reveal_strlit(".jpg");
    }
    let mut s = String::from_str("img-");
    push_padded_decimal(&mut s, index as u64, FRAME_INDEX_WIDTH);
    s.append(".jpg");
    assert(s@ =~= frame_name(index as nat));
    s
}

/// The file name of the pointer to the most recent frame of stream `instance`.
pub fn snapshot_file_name(instance: &str) -> (r: String)
    ensures
        r@ == snapshot_name(instance@),
{
    proof {
        reveal_strlit(".jpg");
    }
    let mut s = String::from_str(instance);
    s.append(".jpg");
    assert(s@ =~= snapshot_name(instance@));
    s
}

} // verus!
