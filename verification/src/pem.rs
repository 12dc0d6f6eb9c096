//! PEM decoding: armor lines (those beginning with `-`) are dropped,
//! the remaining lines are concatenated and base64-decoded into DER.

use vstd::prelude::*;

use crate::Error;
use crate::b64::b64_decode_of;
use crate::b64::decode_base64;

verus! {

/// Index of the first line feed in `s`, or `s.len()` when there is none.
pub open spec fn nl_index(s: Seq<u8>) -> nat
    decreases s.len(),
{
    if s.len() == 0 {
        0
    } else if s[0] == 10 {
        0
    } else {
        1 + nl_index(s.skip(1))
    }
}

proof fn lemma_nl_index_unique(s: Seq<u8>, k: int)
    requires
        0 <= k <= s.len(),
        forall|j: int| 0 <= j < k ==> s[j] != 10,
        k < s.len() ==> s[k] == 10,
    ensures
        nl_index(s) == k,
    decreases s.len(),
{
    if k == 0 {
    } else {
        assert(s[0] != 10);
        assert forall|j: int| 0 <= j < k - 1 implies s.skip(1)[j] != 10 by {
            assert(s.skip(1)[j] == s[j + 1]);
        }
        if k - 1 < s.skip(1).len() {
            assert(s.skip(1)[k - 1] == s[k]);
        }
        lemma_nl_index_unique(s.skip(1), k - 1);
    }
}

/// A line with a trailing carriage return loses it.
pub open spec fn chomp_cr(l: Seq<u8>) -> Seq<u8> {
    if l.len() > 0 && l[l.len() - 1] == 13 {
        l.take(l.len() - 1)
    } else {
        l
    }
}

/// An armor line: the first character is `-`.
pub open spec fn is_armor(l: Seq<u8>) -> bool {
    l.len() > 0 && l[0] == 45
}

/// What a line contributes to the base64 body.
pub open spec fn kept_line(l: Seq<u8>) -> Seq<u8> {
    if is_armor(chomp_cr(l)) {
        Seq::empty()
    } else {
        chomp_cr(l)
    }
}

/// The lines of a byte stream, split at line feeds. A trailing line
/// feed opens no empty final line.
pub open spec fn lines_of(s: Seq<u8>) -> Seq<Seq<u8>>
    decreases s.len(),
{
    if s.len() == 0 {
        Seq::empty()
    } else if nl_index(s) >= s.len() {
        seq![s]
    } else {
        seq![s.take(nl_index(s) as int)] + lines_of(s.skip(nl_index(s) as int + 1))
    }
}

/// The base64 body of a sequence of lines: the concatenation of the
/// non-armor lines, each stripped of a trailing carriage return.
pub open spec fn body_of_lines(ls: Seq<Seq<u8>>) -> Seq<u8>
    decreases ls.len(),
{
    if ls.len() == 0 {
        Seq::empty()
    } else {
        kept_line(ls[0]) + body_of_lines(ls.skip(1))
    }
}

/// The base64 body of a PEM document.
pub open spec fn pem_body(s: Seq<u8>) -> Seq<u8> {
    body_of_lines(lines_of(s))
}

/// Strips the armor lines of a PEM document and base64-decodes the
/// remaining body into raw DER bytes.
pub fn pem_to_der(pem: &[u8]) -> (r: Result<Vec<u8>, Error>)
    ensures
        match b64_decode_of(pem_body(pem@)) {
            Some(d) => r is Ok && r->Ok_0@ == d,
            None => r == Err::<Vec<u8>, Error>(Error::Base64Decode),
        },
{
    let n = pem.len();
    let mut acc: Vec<u8> = Vec::new();
    let mut i: usize = 0;
    proof {
        assert(pem@.skip(0) =~= pem@);
        assert(acc@ + pem_body(pem@) =~= pem_body(pem@));
    }
    while i < n
        invariant
            i <= n,
            n == pem@.len(),
            pem_body(pem@) == acc@ + pem_body(pem@.skip(i as int)),
        decreases n - i,
    {
        let ghost acc0 = acc@;
        let mut j: usize = i;
        while j < n && pem[j] != 10
            invariant
                i <= j <= n,
                n == pem@.len(),
                forall|m: int| i <= m < j ==> pem@[m] != 10,
            decreases n - j,
        {
            j = j + 1;
        }
        let ghost rest = pem@.skip(i as int);
        let ghost ln = pem@.subrange(i as int, j as int);
        proof {
            assert forall|m: int| 0 <= m < j - i implies rest[m] != 10 by {
                assert(rest[m] == pem@[i + m]);
            }
            if (j - i) < rest.len() {
                assert(rest[j - i] == pem@[j as int]);
            }
            lemma_nl_index_unique(rest, j - i);
            assert(rest.take(j - i) =~= ln);
        }
        let le: usize = if j > i && pem[j - 1] == 13 {
            j - 1
        } else {
            j
        };
        proof {
            assert(chomp_cr(ln) =~= pem@.subrange(i as int, le as int));
        }
        if le == i || pem[i] != 45 {
            let mut m: usize = i;
            while m < le
                invariant
                    i <= m <= le <= n,
                    n == pem@.len(),
                    acc@ == acc0 + pem@.subrange(i as int, m as int),
                decreases le - m,
            {
                acc.push(pem[m]);
                m = m + 1;
                proof {
                    assert(pem@.subrange(i as int, m as int) =~= pem@.subrange(
                        i as int,
                        m - 1,
                    ).push(pem@[m - 1]));
                }
            }
            proof {
                assert(!is_armor(chomp_cr(ln)));
                assert(acc@ == acc0 + kept_line(ln));
            }
        } else {
            proof {
                assert(is_armor(chomp_cr(ln)));
                assert(acc@ =~= acc0 + kept_line(ln));
            }
        }
        proof {
            if j == n {
                assert(ln =~= rest);
                assert(lines_of(rest) == seq![rest]);
                assert(seq![rest].skip(1) =~= Seq::<Seq<u8>>::empty());
                assert(seq![rest][0] == rest);
                assert(body_of_lines(seq![rest]) == kept_line(rest) + body_of_lines(
                    seq![rest].skip(1),
                ));
                assert(body_of_lines(Seq::<Seq<u8>>::empty()) == Seq::<u8>::empty());
                assert(pem_body(rest) == kept_line(rest) + Seq::<u8>::empty());
                assert(kept_line(rest) + Seq::<u8>::empty() =~= kept_line(ln));
                assert(pem@.skip(n as int) =~= Seq::<u8>::empty());
                assert(pem_body(pem@.skip(n as int)) == Seq::<u8>::empty());
                assert(acc@ + Seq::<u8>::empty() =~= acc@);
            } else {
                let tail = lines_of(rest.skip(j - i + 1));
                assert(lines_of(rest) == seq![ln] + tail);
                assert((seq![ln] + tail)[0] == ln);
                assert((seq![ln] + tail).skip(1) =~= tail);
                assert(body_of_lines(seq![ln] + tail) == kept_line(ln) + body_of_lines(tail));
                assert(rest.skip(j - i + 1) =~= pem@.skip(j + 1));
                assert(pem_body(rest) == kept_line(ln) + pem_body(pem@.skip(j + 1)));
            }
        }
        if j == n {
            i = n;
        } else {
            i = j + 1;
        }
        proof {
            assert(acc0 + pem_body(rest) =~= acc@ + pem_body(pem@.skip(i as int)));
        }
    }
    proof {
        assert(pem@.skip(n as int) =~= Seq::<u8>::empty());
        assert(pem_body(Seq::<u8>::empty()) == Seq::<u8>::empty());
        assert(acc@ + Seq::<u8>::empty() =~= acc@);
    }
    decode_base64(acc.as_slice())
}

/// A newline-terminated line without inner line feeds splits off the
/// front of a document.
proof fn lemma_lines_of_cons(l: Seq<u8>, rest: Seq<u8>)
    requires
        forall|k: int| 0 <= k < l.len() ==> l[k] != 10,
    ensures
        lines_of(l + seq![10u8] + rest) == seq![l] + lines_of(rest),
{
    let s = l + seq![10u8] + rest;
    assert(s[l.len() as int] == 10);
    lemma_nl_index_unique(s, l.len() as int);
    assert(s.take(l.len() as int) =~= l);
    assert(s.skip(l.len() as int + 1) =~= rest);
}

/// The decoded body of a document of three newline-terminated lines
/// whose first and last are armor and whose middle is not: exactly
/// the middle line. With `lemma_spki_round_trip`, a freshly armored
/// key reaches the encoder body intact.
pub proof fn lemma_pem_wrap(begin: Seq<u8>, body: Seq<u8>, end: Seq<u8>)
    requires
        forall|k: int| 0 <= k < begin.len() ==> begin[k] != 10,
        forall|k: int| 0 <= k < body.len() ==> body[k] != 10,
        forall|k: int| 0 <= k < end.len() ==> end[k] != 10,
        is_armor(chomp_cr(begin)),
        is_armor(chomp_cr(end)),
        !is_armor(chomp_cr(body)),
    ensures
        pem_body(begin + seq![10u8] + body + seq![10u8] + end + seq![10u8]) == chomp_cr(body),
{
    let s = begin + seq![10u8] + body + seq![10u8] + end + seq![10u8];
    let rest1 = body + seq![10u8] + (end + seq![10u8]);
    let rest2 = end + seq![10u8];
    assert(s =~= begin + seq![10u8] + rest1);
    assert(rest1 =~= body + seq![10u8] + rest2);
    assert(rest2 =~= end + seq![10u8] + Seq::<u8>::empty());
    lemma_lines_of_cons(begin, rest1);
    lemma_lines_of_cons(body, rest2);
    lemma_lines_of_cons(end, Seq::<u8>::empty());
    let t1 = seq![body] + (seq![end] + Seq::<Seq<u8>>::empty());
    let t2 = seq![end] + Seq::<Seq<u8>>::empty();
    let t3 = Seq::<Seq<u8>>::empty();
    let ls = seq![begin] + t1;
    assert(lines_of(s) == ls);
    assert(body_of_lines(t3) == Seq::<u8>::empty());
    assert(t2[0] == end);
    assert(t2.skip(1) =~= t3);
    assert(body_of_lines(t2) == kept_line(end) + body_of_lines(t3));
    assert(t1[0] == body);
    assert(t1.skip(1) =~= t2);
    assert(body_of_lines(t1) == kept_line(body) + body_of_lines(t2));
    assert(ls[0] == begin);
    assert(ls.skip(1) =~= t1);
    assert(body_of_lines(ls) == kept_line(begin) + body_of_lines(t1));
    assert(kept_line(begin) + (chomp_cr(body) + (Seq::<u8>::empty() + Seq::<u8>::empty()))
        =~= chomp_cr(body));
}

/// Extra armor lines are ignored: inserting a line whose CR-stripped
/// form begins with `-` anywhere in a document (a repeated `BEGIN`
/// marker among them) leaves the decoded body unchanged.
pub proof fn lemma_armor_lines_ignored(ls: Seq<Seq<u8>>, i: int, armor: Seq<u8>)
    requires
        0 <= i <= ls.len(),
        is_armor(chomp_cr(armor)),
    ensures
        body_of_lines(ls.insert(i, armor)) == body_of_lines(ls),
    decreases i,
{
    if i == 0 {
        assert(ls.insert(0, armor)[0] == armor);
        assert(ls.insert(0, armor).skip(1) =~= ls);
        assert(kept_line(armor) =~= Seq::<u8>::empty());
        assert(body_of_lines(ls.insert(0, armor)) =~= body_of_lines(ls));
    } else {
        assert(ls.insert(i, armor)[0] == ls[0]);
        assert(ls.insert(i, armor).skip(1) =~= ls.skip(1).insert(i - 1, armor));
        lemma_armor_lines_ignored(ls.skip(1), i - 1, armor);
    }
}

} // verus!
