//! The one-line ERC advisory shown under the canvas.

use vstd::prelude::*;
use vstd::string::StringExecFns;

use crate::studio::{decimal, push_decimal};

verus! {

/// How many violations the advisory spells out.
pub const ERC_NOTE_HEAD: usize = 4;

/// `code: message` of one violation.
pub open spec fn violation_text(v: (String, String)) -> Seq<char> {
    v.0@ + ": "@ + v.1@
}

/// The texts of the violations joined with ` | `.
pub open spec fn joined_violations(w: Seq<(String, String)>) -> Seq<char>
    decreases w.len(),
{
    if w.len() == 0 {
        Seq::empty()
    } else if w.len() == 1 {
        violation_text(w[0])
    } else {
        joined_violations(w.drop_last()) + " | "@ + violation_text(w.last())
    }
}

/// The advisory for a list of `(code, message)` violations: none when the
/// list is empty; else the count, the first four, and how many more.
pub open spec fn spec_erc_note(w: Seq<(String, String)>) -> Option<Seq<char>> {
    if w.len() == 0 {
        None
    } else {
        let head = if w.len() <= 4 { w } else { w.subrange(0, 4) };
        let more = if w.len() > 4 { " (+"@ + decimal((w.len() - 4) as nat) + " more)"@ } else { Seq::empty() };
        Some("ERC advisory ("@ + decimal(w.len()) + "): "@ + joined_violations(head) + more)
    }
}

/// The ERC advisory for a list of `(code, message)` violations.
pub fn erc_note_from_slice(w: &[(String, String)]) -> (r: Option<String>)
    ensures
        match r {
            Some(s) => spec_erc_note(w@) == Some(s@),
            None => spec_erc_note(w@) is None,
        },
{
    let n = w.len();
    if n == 0 {
        return None;
    }
    let mut s = String::from_str("ERC advisory (");
    push_decimal(&mut s, n as u64);
    s.append("): ");
    let ghost prefix = s@;
    let shown: usize = if n <= ERC_NOTE_HEAD { n } else { ERC_NOTE_HEAD };
    let ghost head = if w@.len() <= 4 { w@ } else { w@.subrange(0, 4) };
    assert(head.len() == shown);
    let mut k: usize = 0;
    while k < shown
        invariant
            shown <= n,
            n == w@.len(),
            head.len() == shown,
            forall|a: int| 0 <= a < shown ==> head[a] == w@[a],
            k <= shown,
            s@ == prefix + joined_violations(head.subrange(0, k as int)),
        decreases shown - k,
    {
        proof {
            assert(head.subrange(0, k + 1).drop_last() =~= head.subrange(0, k as int));
            assert(head.subrange(0, k + 1).last() == w@[k as int]);
        }
        if k > 0 {
            s.append(" | ");
        }
        s.append(w[k].0.as_str());
        s.append(": ");
        s.append(w[k].1.as_str());
        proof {
            if k == 0 {
                assert(head.subrange(0, 1).len() == 1);
                assert(s@ =~= prefix + joined_violations(head.subrange(0, 1)));
            } else {
                assert(s@ =~= prefix + joined_violations(head.subrange(0, k + 1)));
            }
        }
        k = k + 1;
    }
    proof {
        assert(head.subrange(0, shown as int) =~= head);
    }
    if n > ERC_NOTE_HEAD {
        s.append(" (+");
        push_decimal(&mut s, (n - ERC_NOTE_HEAD) as u64);
        s.append(" more)");
    }
    proof {
        let more = if n > 4 { " (+"@ + decimal((n - 4) as nat) + " more)"@ } else { Seq::<char>::empty() };
        assert(s@ =~= "ERC advisory ("@ + decimal(n as nat) + "): "@ + joined_violations(head) + more);
    }
    Some(s)
}

} // verus!

verus! {

/// The advisory of a non-empty list starts with `ERC advisory (`, the
/// count and `): `, then the first violations as `code: message` joined by
/// ` | `: all of them when there are at most four, with nothing after;
/// else the first four and ` (+n more)` for the `n` others.
pub proof fn law_erc_note_shows_four(w: Seq<(String, String)>)
    ensures
        w.len() == 0 ==> spec_erc_note(w) is None,
        (0 < w.len() && w.len() <= 4) ==> spec_erc_note(w) == Some(
            "ERC advisory ("@ + decimal(w.len()) + "): "@ + joined_violations(w),
        ),
        w.len() > 4 ==> spec_erc_note(w) == Some(
            "ERC advisory ("@ + decimal(w.len()) + "): "@ + joined_violations(w.take(4)) + " (+"@ + decimal(
                (w.len() - 4) as nat,
            ) + " more)"@,
        ),
{
    assert(w.take(4) =~= w.subrange(0, 4));
    assert("ERC advisory ("@ + decimal(w.len()) + "): "@ + joined_violations(w) + Seq::<char>::empty()
        =~= "ERC advisory ("@ + decimal(w.len()) + "): "@ + joined_violations(w));
}

} // verus!
