//! Ingress for raw logs: the daemon listens on TCP and UDP and feeds each
//! line to the dedup engine. A UDP datagram may carry several lines; this
//! module splits one into them.

use vstd::prelude::*;
use crate::similarity::names;
use crate::text::{chars_of, copy_range, string_from};

verus! {

/// Index of the first line feed in `s`, or `-1`.
pub open spec fn newline_index(s: Seq<char>) -> int
    decreases s.len(),
{
    if s.len() == 0 {
        -1
    } else if s[0] == '\n' {
        0
    } else {
        let r = newline_index(s.drop_first());
        if r < 0 {
            -1
        } else {
            r + 1
        }
    }
}

/// A line without the carriage return of its `\r\n` ending.
pub open spec fn strip_cr(s: Seq<char>) -> Seq<char> {
    if s.len() > 0 && s.last() == '\r' {
        s.drop_last()
    } else {
        s
    }
}

/// The non-empty lines of `s`, split as `str::lines` splits (at `\n` or
/// `\r\n`; a final line needs no line ending).
pub open spec fn nonempty_lines(s: Seq<char>) -> Seq<Seq<char>>
    decreases s.len(),
{
    if s.len() == 0 {
        Seq::empty()
    } else {
        let i = newline_index(s);
        if i < 0 {
            seq![s]
        } else {
            let l = strip_cr(s.take(i));
            proof {
                lemma_newline_index(s);
            }
            let rest = nonempty_lines(s.skip(i + 1));
            if l.len() > 0 {
                seq![l] + rest
            } else {
                rest
            }
        }
    }
}

pub proof fn lemma_newline_index(s: Seq<char>)
    ensures
        -1 <= newline_index(s) < s.len(),
        newline_index(s) >= 0 ==> s[newline_index(s)] == '\n',
        forall|j: int|
            0 <= j < s.len() && (newline_index(s) < 0 || j < newline_index(s)) ==> #[trigger] s[j]
                != '\n',
    decreases s.len(),
{
    if s.len() > 0 {
        lemma_newline_index(s.drop_first());
        assert forall|j: int| 0 < j < s.len() implies #[trigger] s[j] == s.drop_first()[j - 1] by {}
    }
}

/// The scan that stops at the first line feed finds `newline_index`.
proof fn lemma_newline_scan(s: Seq<char>, k: int)
    requires
        0 <= k <= s.len(),
        forall|j: int| 0 <= j < k ==> #[trigger] s[j] != '\n',
        k == s.len() || s[k] == '\n',
    ensures
        newline_index(s) == (if k == s.len() {
            -1
        } else {
            k
        }),
{
    lemma_newline_index(s);
    let i = newline_index(s);
    if i >= 0 && i < k {
        assert(s[i] != '\n');
    }
    if k < s.len() && (i < 0 || i > k) {
        assert(s[k] != '\n');
    }
}

/// The non-empty lines of a datagram, in order.
pub fn datagram_lines(s: &str) -> (r: Vec<String>)
    ensures
        names(r@) == nonempty_lines(s@),
{
    let c = chars_of(s);
    let n = c.len();
    let mut out: Vec<String> = Vec::new();
    let mut pos: usize = 0;
    assert(c@.skip(0) =~= c@);
    while pos < n
        invariant
            0 <= pos <= n,
            n == c@.len(),
            c@ == s@,
            names(out@) + nonempty_lines(c@.skip(pos as int)) == nonempty_lines(s@),
        decreases n - pos,
    {
        let ghost rest = c@.skip(pos as int);
        let mut j = pos;
        while j < n && c[j] != '\n'
            invariant
                pos <= j <= n,
                n == c@.len(),
                rest == c@.skip(pos as int),
                forall|k: int| 0 <= k < j - pos ==> #[trigger] rest[k] != '\n',
            decreases n - j,
        {
            assert(rest[j - pos] == c@[j as int]);
            j += 1;
        }
        proof {
            if j < n {
                assert(rest[j - pos] == c@[j as int]);
            }
            lemma_newline_scan(rest, j - pos);
        }
        let ghost before = out@;
        if j < n {
            let mut end = j;
            if end > pos && c[end - 1] == '\r' {
                end -= 1;
            }
            let line = copy_range(c.as_slice(), pos, end);
            proof {
                let l = rest.take(j - pos);
                assert(l =~= c@.subrange(pos as int, j as int));
                if j > pos && c@[j - 1] == '\r' {
                    assert(strip_cr(l) =~= line@);
                } else {
                    assert(strip_cr(l) =~= line@);
                }
                assert(rest.skip(j - pos + 1) =~= c@.skip(j + 1));
            }
            if line.len() > 0 {
                out.push(string_from(line.as_slice()));
                proof {
                    assert(names(out@) =~= names(before).push(line@));
                    assert(names(before).push(line@) + nonempty_lines(c@.skip(j + 1)) =~= names(
                        before,
                    ) + (seq![line@] + nonempty_lines(c@.skip(j + 1))));
                }
            }
            pos = j + 1;
        } else {
            let line = copy_range(c.as_slice(), pos, n);
            assert(line@ =~= rest);
            out.push(string_from(line.as_slice()));
            proof {
                assert(names(out@) =~= names(before).push(line@));
                assert(c@.skip(n as int) =~= Seq::<char>::empty());
                assert(names(out@) + nonempty_lines(c@.skip(n as int)) =~= names(before) + seq![rest]);
            }
            pos = n;
        }
    }
    assert(c@.skip(n as int) =~= Seq::<char>::empty());
    assert(names(out@) =~= names(out@) + nonempty_lines(c@.skip(n as int)));
    out
}

/// Every line of a datagram is non-empty and holds no line feed.
pub proof fn law_datagram_lines_clean(s: Seq<char>)
    ensures
        forall|i: int|
            0 <= i < nonempty_lines(s).len() ==> (#[trigger] nonempty_lines(s)[i]).len() > 0
                && !nonempty_lines(s)[i].contains('\n'),
    decreases s.len(),
{
    if s.len() > 0 {
        lemma_newline_index(s);
        let i = newline_index(s);
        if i < 0 {
            assert(!s.contains('\n'));
        } else {
            let l = strip_cr(s.take(i));
            law_datagram_lines_clean(s.skip(i + 1));
            let rest = nonempty_lines(s.skip(i + 1));
            assert(!l.contains('\n')) by {
                if l.contains('\n') {
                    let k = choose|k: int| 0 <= k < l.len() && l[k] == '\n';
                    assert(s[k] == '\n');
                }
            }
            if l.len() > 0 {
                let r = seq![l] + rest;
                assert forall|k: int| 0 <= k < r.len() implies (#[trigger] r[k]).len() > 0 && !r[k].contains('\n') by {
                    if k > 0 {
                        assert(r[k] == rest[k - 1]);
                    }
                }
            }
        }
    }
}

} // verus!
