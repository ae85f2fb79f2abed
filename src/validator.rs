//! Running the automaton over a whole input.
use vstd::prelude::*;
use vstd::utf8::encode_utf8;
use crate::automaton::{Marker, step, marker_byte, step_exec, offending, marker_char};

verus! {

/// Where a scan stands after some input: still running with a stack, or stopped
/// at the position of the first rejected byte.
pub enum Scan {
    Open(Seq<Marker>),
    Stuck(nat, u8),
}

/// The scan of `s` from the stack `start`; positions are counted within `s`.
pub open spec fn scan_from(start: Seq<Marker>, s: Seq<u8>) -> Scan
    decreases s.len(),
{
    if s.len() == 0 {
        Scan::Open(start)
    } else {
        match scan_from(start, s.drop_last()) {
            Scan::Stuck(i, c) => Scan::Stuck(i, c),
            Scan::Open(st) => match step(st, s.last()) {
                Some(next) => Scan::Open(next),
                None => Scan::Stuck((s.len() - 1) as nat, s.last()),
            },
        }
    }
}

/// The scan of a whole document, from the empty stack.
pub open spec fn scan(s: Seq<u8>) -> Scan {
    scan_from(Seq::empty(), s)
}

/// The result a scan stands for: a rejected byte, an unclosed marker, or success.
pub open spec fn verdict(sc: Scan) -> Result<(), char> {
    match sc {
        Scan::Stuck(_, b) => Err(b as char),
        Scan::Open(st) => if st.len() == 0 {
            Ok(())
        } else {
            Err(marker_byte(st.last()) as char)
        },
    }
}

/// The outcome of validating the bytes `s`.
pub open spec fn validate(s: Seq<u8>) -> Result<(), char> {
    verdict(scan(s))
}

/// Once a scan is stuck, reading more input leaves it stuck at the same byte.
pub proof fn lemma_stuck_persists(start: Seq<Marker>, s: Seq<u8>, j: int)
    requires
        0 <= j <= s.len(),
        scan_from(start, s.take(j)) is Stuck,
    ensures
        scan_from(start, s) == scan_from(start, s.take(j)),
    decreases s.len(),
{
    if s.len() == j {
        assert(s.take(j) =~= s);
    } else {
        assert(s.drop_last().take(j) =~= s.take(j));
        lemma_stuck_persists(start, s.drop_last(), j);
    }
}

/// Validates the bytes `s`: `Ok` when they form a document, else the offending
/// character, or the character of the innermost marker left open at the end.
pub fn parse_bytes(s: &[u8]) -> (r: Result<(), char>)
    ensures
        r == validate(s@),
{
    let mut stack: Vec<Marker> = Vec::new();
    let mut i: usize = 0;
    while i < s.len()
        invariant
            i <= s.len(),
            scan(s@.take(i as int)) == Scan::Open(stack@),
        decreases s.len() - i,
    {
        let b = s[i];
        assert(s@.take(i + 1).drop_last() =~= s@.take(i as int));
        if !step_exec(&mut stack, b) {
            proof {
                lemma_stuck_persists(Seq::empty(), s@, i + 1);
            }
            return Err(offending(b));
        }
        i += 1;
    }
    assert(s@.take(s.len() as int) =~= s@);
    match stack.pop() {
        None => Ok(()),
        Some(m) => Err(marker_char(m)),
    }
}

/// Validates a document held in a string, over its UTF-8 bytes.
pub fn parse(s: String) -> (r: Result<(), char>)
    ensures
        r == validate(encode_utf8(s@)),
{
    parse_bytes(s.as_str().as_bytes())
}

} // verus!
