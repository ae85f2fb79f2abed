//! Properties of validation that relate several inputs or every reachable state.
use vstd::prelude::*;
use crate::automaton::{
    Marker, step, step_outside, close_object, in_string, in_keyword, in_number, mid_token, is_whitespace,
    is_digit, LBRACE, LBRACKET, RBRACE, RBRACKET,
};
use crate::validator::{Scan, scan, scan_from, verdict, validate, lemma_stuck_persists};

verus! {

/// Validation depends on the input alone: the same bytes always give the same
/// result, so validating an input again repeats the first outcome.
pub proof fn validation_is_repeatable(s: Seq<u8>, t: Seq<u8>)
    requires
        s == t,
    ensures
        validate(s) == validate(t),
        scan(s) == scan(t),
{
}

/// Moves the position of a stuck scan by `n`.
pub open spec fn shift(sc: Scan, n: nat) -> Scan {
    match sc {
        Scan::Stuck(i, c) => Scan::Stuck(i + n, c),
        Scan::Open(st) => Scan::Open(st),
    }
}

/// Scanning `a + b` is scanning `a`, then scanning `b` from where `a` left off.
pub proof fn lemma_scan_append(start: Seq<Marker>, a: Seq<u8>, b: Seq<u8>)
    ensures
        scan_from(start, a + b) == match scan_from(start, a) {
            Scan::Stuck(i, c) => Scan::Stuck(i, c),
            Scan::Open(st) => shift(scan_from(st, b), a.len()),
        },
    decreases b.len(),
{
    if b.len() == 0 {
        assert(a + b =~= a);
    } else {
        assert((a + b).drop_last() =~= a + b.drop_last());
        lemma_scan_append(start, a, b.drop_last());
    }
}

/// Whitespace read outside the middle of a token changes nothing.
pub proof fn lemma_whitespace_run(st: Seq<Marker>, w: Seq<u8>)
    requires
        !mid_token(st),
        forall|j: int| 0 <= j < w.len() ==> is_whitespace(#[trigger] w[j]),
    ensures
        scan_from(st, w) == Scan::Open(st),
    decreases w.len(),
{
    if w.len() > 0 {
        lemma_whitespace_run(st, w.drop_last());
        if in_number(st) {
            assert(st.drop_last().push(st.last()) =~= st);
        }
    }
}

/// Whitespace read right after a digit ends the number and changes nothing else.
proof fn lemma_whitespace_after_digit(st: Seq<Marker>, w: Seq<u8>)
    requires
        in_number(st),
        w.len() > 0,
        forall|j: int| 0 <= j < w.len() ==> is_whitespace(#[trigger] w[j]),
    ensures
        scan_from(st, w) == Scan::Open(st.drop_last().push(Marker::Number(st.last()->Number_0, true))),
    decreases w.len(),
{
    let ended = st.drop_last().push(Marker::Number(st.last()->Number_0, true));
    if w.len() == 1 {
        assert(w.drop_last() =~= Seq::<u8>::empty());
        assert(w.last() == w[0]);
    } else {
        lemma_whitespace_after_digit(st, w.drop_last());
        assert(is_whitespace(w.last()));
        assert(ended.drop_last().push(ended.last()) =~= ended);
    }
}

/// Whitespace may be inserted at any point that is not inside a keyword or between
/// two digits of a number, inside strings and between tokens alike, without
/// changing the result.
pub proof fn whitespace_between_tokens(s: Seq<u8>, k: int, w: Seq<u8>)
    requires
        0 <= k <= s.len(),
        forall|j: int| 0 <= j < w.len() ==> is_whitespace(#[trigger] w[j]),
        !(scan(s.take(k)) is Open && mid_token(scan(s.take(k))->Open_0)),
    ensures
        validate(s.take(k) + w + s.skip(k)) == validate(s),
{
    let p = s.take(k);
    let r = s.skip(k);
    assert(s =~= p + r);
    lemma_scan_append(Seq::empty(), p, w);
    lemma_scan_append(Seq::empty(), p + w, r);
    lemma_scan_append(Seq::empty(), p, r);
    if let Scan::Open(st) = scan(p) {
        lemma_whitespace_run(st, w);
        assert(verdict(shift(scan_from(st, r), (p + w).len())) == verdict(scan_from(st, r)));
        assert(verdict(shift(scan_from(st, r), p.len())) == verdict(scan_from(st, r)));
    }
}

/// `s` with the run `runs[i]` inserted before position `at[i]` of `s`, for each `i`.
/// The runs are inserted from the last position back, so that each position
/// still counts within `s`.
pub open spec fn insert_runs(s: Seq<u8>, at: Seq<int>, runs: Seq<Seq<u8>>) -> Seq<u8>
    decreases at.len(),
{
    if at.len() == 0 || runs.len() == 0 {
        s
    } else {
        let k = at.last();
        insert_runs(s.take(k) + runs.last() + s.skip(k), at.drop_last(), runs.drop_last())
    }
}

/// Several runs of whitespace may be inserted at points that are not inside a
/// keyword or between two digits of a number without changing the result.
pub proof fn whitespace_runs_between_tokens(s: Seq<u8>, at: Seq<int>, runs: Seq<Seq<u8>>)
    requires
        at.len() == runs.len(),
        forall|i: int, j: int| 0 <= i < j < at.len() ==> at[i] < at[j],
        forall|i: int| 0 <= i < at.len() ==> 0 <= #[trigger] at[i] <= s.len(),
        forall|i: int, j: int|
            0 <= i < runs.len() && 0 <= j < runs[i].len() ==> is_whitespace(#[trigger] runs[i][j]),
        forall|i: int|
            0 <= i < at.len() ==> !(scan(s.take(#[trigger] at[i])) is Open && mid_token(
                scan(s.take(at[i]))->Open_0,
            )),
    ensures
        validate(insert_runs(s, at, runs)) == validate(s),
    decreases at.len(),
{
    if at.len() > 0 {
        let n = at.len() - 1;
        let k = at[n];
        let w = runs[n];
        assert forall|j: int| 0 <= j < w.len() implies is_whitespace(#[trigger] w[j]) by {
            assert(is_whitespace(runs[n][j]));
        }
        whitespace_between_tokens(s, k, w);
        let s1 = s.take(k) + w + s.skip(k);
        assert forall|i: int| 0 <= i < at.drop_last().len() implies s1.take(
            #[trigger] at.drop_last()[i],
        ) == s.take(at.drop_last()[i]) by {
            assert(at[i] < at[n]);
            assert(s1.take(at[i]) =~= s.take(at[i]));
        }
        whitespace_runs_between_tokens(s1, at.drop_last(), runs.drop_last());
    }
}

/// Whitespace inserted while a keyword is half read makes the input invalid,
/// with the first inserted byte as the offending character.
pub proof fn whitespace_inside_keyword(s: Seq<u8>, k: int, w: Seq<u8>)
    requires
        0 <= k <= s.len(),
        w.len() > 0,
        forall|j: int| 0 <= j < w.len() ==> is_whitespace(#[trigger] w[j]),
        scan(s.take(k)) is Open,
        in_keyword(scan(s.take(k))->Open_0),
    ensures
        validate(s.take(k) + w + s.skip(k)) == Err::<(), char>(w[0] as char),
{
    let p = s.take(k);
    let r = s.skip(k);
    let st = scan(p)->Open_0;
    assert(is_whitespace(w[0]));
    assert(w.take(1).drop_last() =~= Seq::<u8>::empty());
    assert(w.take(1).last() == w[0]);
    assert(!in_string(st));
    assert(step(st, w[0]) is None);
    assert(scan_from(st, w.take(1).drop_last()) == Scan::Open(st));
    assert(scan_from(st, w.take(1)) == Scan::Stuck(0, w[0]));
    lemma_stuck_persists(st, w, 1);
    lemma_scan_append(Seq::empty(), p, w);
    lemma_scan_append(Seq::empty(), p + w, r);
}

/// Whitespace inserted between two digits read as one number makes the input
/// invalid, with the digit after it as the offending character.
pub proof fn whitespace_inside_number(p: Seq<u8>, w: Seq<u8>, q: Seq<u8>)
    requires
        p.len() > 0,
        is_digit(p.last()),
        scan(p) is Open,
        !in_string(scan(p.drop_last())->Open_0),
        w.len() > 0,
        forall|j: int| 0 <= j < w.len() ==> is_whitespace(#[trigger] w[j]),
        q.len() > 0,
        is_digit(q[0]),
    ensures
        validate(p + w + q) == Err::<(), char>(q[0] as char),
{
    let st = scan(p)->Open_0;
    assert(scan(p.drop_last()) is Open);
    assert(in_number(st) && !st.last()->Number_1);
    lemma_whitespace_after_digit(st, w);
    let ended = st.drop_last().push(Marker::Number(st.last()->Number_0, true));
    assert(q.take(1).drop_last() =~= Seq::<u8>::empty());
    assert(q.take(1).last() == q[0]);
    assert(scan_from(ended, q.take(1).drop_last()) == Scan::Open(ended));
    assert(step(ended, q[0]) is None);
    assert(scan_from(ended, q.take(1)) == Scan::Stuck(0, q[0]));
    lemma_stuck_persists(ended, q, 1);
    lemma_scan_append(Seq::empty(), p, w);
    lemma_scan_append(Seq::empty(), p + w, q);
}

/// If the scan of `s` stops at position `i`, the bytes before `i` are all read
/// without a rejection, every longer prefix stops at that same byte, and the
/// reported character is the byte at `i`.
pub proof fn prefix_failure(s: Seq<u8>, i: nat, c: u8)
    requires
        scan(s) == Scan::Stuck(i, c),
    ensures
        i < s.len(),
        s[i as int] == c,
        scan(s.take(i as int)) is Open,
        forall|j: int| i < j <= s.len() ==> scan(#[trigger] s.take(j)) == Scan::Stuck(i, c),
        validate(s) == Err::<(), char>(c as char),
    decreases s.len(),
{
    let d = s.drop_last();
    if scan(d) is Stuck {
        prefix_failure(d, i, c);
        assert(d.take(i as int) =~= s.take(i as int));
        assert forall|j: int| i < j <= s.len() implies scan(#[trigger] s.take(j)) == Scan::Stuck(
            i,
            c,
        ) by {
            if j == s.len() {
                assert(s.take(j) =~= s);
            } else {
                assert(d.take(j) =~= s.take(j));
            }
        }
    } else {
        assert(s.take(i as int) =~= d);
        assert forall|j: int| i < j <= s.len() implies scan(#[trigger] s.take(j)) == Scan::Stuck(
            i,
            c,
        ) by {
            assert(s.take(j) =~= s);
        }
    }
}

/// Number of entries of a stack equal to `m`.
pub open spec fn marker_count(st: Seq<Marker>, m: Marker) -> int
    decreases st.len(),
{
    if st.len() == 0 {
        0
    } else {
        marker_count(st.drop_last(), m) + if st.last() == m {
            1int
        } else {
            0int
        }
    }
}

/// Whether the last byte of `s` is `b`, read outside a string.
pub open spec fn last_read_as(s: Seq<u8>, b: u8) -> bool {
    s.len() > 0 && s.last() == b && scan(s.drop_last()) is Open && !in_string(
        scan(s.drop_last())->Open_0,
    )
}

/// Number of times the byte `b` is read outside strings.
pub open spec fn read_count(s: Seq<u8>, b: u8) -> int
    decreases s.len(),
{
    if s.len() == 0 {
        0
    } else {
        read_count(s.drop_last(), b) + if last_read_as(s, b) {
            1int
        } else {
            0int
        }
    }
}

proof fn lemma_count_push(st: Seq<Marker>, x: Marker, m: Marker)
    ensures
        marker_count(st.push(x), m) == marker_count(st, m) + if x == m {
            1int
        } else {
            0int
        },
{
    assert(st.push(x).drop_last() =~= st);
}

/// Closing an object removes one `ObjectOpen` and no `ArrayOpen`.
proof fn lemma_count_close_object(st: Seq<Marker>)
    requires
        close_object(st) is Some,
    ensures
        marker_count(close_object(st)->0, Marker::ObjectOpen) == marker_count(
            st,
            Marker::ObjectOpen,
        ) - 1,
        marker_count(close_object(st)->0, Marker::ArrayOpen) == marker_count(
            st,
            Marker::ArrayOpen,
        ),
    decreases st.len(),
{
    if st.last() != Marker::ObjectOpen {
        lemma_count_close_object(st.drop_last());
    }
}

/// Each open object or array on the stack is one opening not yet closed.
proof fn lemma_counts_track_reads(s: Seq<u8>)
    requires
        scan(s) is Open,
    ensures
        marker_count(scan(s)->Open_0, Marker::ObjectOpen) == read_count(s, LBRACE) - read_count(
            s,
            RBRACE,
        ),
        marker_count(scan(s)->Open_0, Marker::ArrayOpen) == read_count(s, LBRACKET) - read_count(
            s,
            RBRACKET,
        ),
    decreases s.len(),
{
    if s.len() > 0 {
        let d = s.drop_last();
        let b = s.last();
        lemma_counts_track_reads(d);
        let st0 = scan(d)->Open_0;
        let st = scan(s)->Open_0;
        assert(step(st0, b) == Some(st));
        if in_string(st0) {
            if st.len() < st0.len() {
                assert(st =~= st0.drop_last());
            }
        } else if in_keyword(st0) || (in_number(st0) && (is_digit(b) || is_whitespace(b))) {
            assert(b != LBRACE && b != RBRACE && b != LBRACKET && b != RBRACKET);
            if st.len() < st0.len() {
                assert(st =~= st0.drop_last());
            } else {
                assert(st =~= st0.drop_last().push(st.last()));
                lemma_count_push(st0.drop_last(), st.last(), Marker::ObjectOpen);
                lemma_count_push(st0.drop_last(), st.last(), Marker::ArrayOpen);
            }
        } else {
            let base = if in_number(st0) {
                st0.drop_last()
            } else {
                st0
            };
            assert(marker_count(base, Marker::ObjectOpen) == marker_count(st0, Marker::ObjectOpen));
            assert(marker_count(base, Marker::ArrayOpen) == marker_count(st0, Marker::ArrayOpen));
            assert(step_outside(base, b) == Some(st));
            if b == RBRACE {
                lemma_count_close_object(base);
            } else if b == RBRACKET {
                assert(st =~= base.drop_last());
            } else if st.len() == base.len() + 1 {
                assert(st =~= base.push(st.last()));
                lemma_count_push(base, st.last(), Marker::ObjectOpen);
                lemma_count_push(base, st.last(), Marker::ArrayOpen);
            }
        }
    }
}

/// In a valid document as many `{` as `}`, and as many `[` as `]`, are read
/// outside strings, and the stack ends empty.
pub proof fn balance(s: Seq<u8>)
    requires
        validate(s) == Ok::<(), char>(()),
    ensures
        read_count(s, LBRACE) == read_count(s, RBRACE),
        read_count(s, LBRACKET) == read_count(s, RBRACKET),
        scan(s) == Scan::Open(Seq::<Marker>::empty()),
{
    lemma_counts_track_reads(s);
    assert(scan(s)->Open_0 =~= Seq::<Marker>::empty());
}

pub open spec fn is_structural(m: Marker) -> bool {
    m == Marker::ObjectOpen || m == Marker::ArrayOpen
}

/// Position `i` holds the innermost open object or array of `st`: none lies above it.
pub open spec fn innermost_at(st: Seq<Marker>, i: int) -> bool {
    0 <= i < st.len() && is_structural(st[i]) && forall|j: int|
        i < j < st.len() ==> !is_structural(#[trigger] st[j])
}

proof fn lemma_close_object_innermost(st: Seq<Marker>)
    requires
        close_object(st) is Some,
    ensures
        exists|i: int|
            innermost_at(st, i) && st[i] == Marker::ObjectOpen && close_object(st) == Some(
                st.take(i),
            ),
    decreases st.len(),
{
    let n = st.len() - 1;
    if st.last() == Marker::ObjectOpen {
        assert(st.drop_last() =~= st.take(n));
        assert(innermost_at(st, n));
    } else {
        let d = st.drop_last();
        lemma_close_object_innermost(d);
        let i = choose|i: int|
            innermost_at(d, i) && d[i] == Marker::ObjectOpen && close_object(d) == Some(d.take(i));
        assert(d.take(i) =~= st.take(i));
        assert forall|j: int| i < j < st.len() implies !is_structural(#[trigger] st[j]) by {
            if j < n {
                assert(st[j] == d[j]);
            }
        }
        assert(innermost_at(st, i));
    }
}

/// Outside a string, a `}` is accepted only where the innermost open structure is
/// an object, and a `]` only where it is an array; the step removes that
/// structure and everything above it.
pub proof fn closing_matches_innermost(st: Seq<Marker>, b: u8)
    requires
        !in_string(st),
        b == RBRACE || b == RBRACKET,
        step(st, b) is Some,
    ensures
        exists|i: int|
            innermost_at(st, i) && st[i] == (if b == RBRACE {
                Marker::ObjectOpen
            } else {
                Marker::ArrayOpen
            }) && step(st, b) == Some(st.take(i)),
{
    let base = if in_number(st) {
        st.drop_last()
    } else {
        st
    };
    assert(!in_keyword(st));
    assert(step_outside(base, b) == step(st, b));
    if b == RBRACE {
        lemma_close_object_innermost(base);
        let i = choose|i: int|
            innermost_at(base, i) && base[i] == Marker::ObjectOpen && close_object(base) == Some(
                base.take(i),
            );
        assert(base.take(i) =~= st.take(i));
        assert forall|j: int| i < j < st.len() implies !is_structural(#[trigger] st[j]) by {
            if j < base.len() {
                assert(st[j] == base[j]);
            }
        }
        assert(innermost_at(st, i));
    } else {
        let i = base.len() - 1;
        assert(base.drop_last() =~= st.take(i));
        assert forall|j: int| i < j < st.len() implies !is_structural(#[trigger] st[j]) by {}
        assert(innermost_at(st, i));
    }
}

} // verus!
