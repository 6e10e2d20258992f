//! Canonical structured-text payloads: records of one or two numeral
//! fields between fixed delimiter texts, with a codec whose decoder
//! accepts exactly the canonical encodings.
use vstd::prelude::*;
use vstd::string::*;
use crate::decimal::{
    dec_of, is_dec_digit, numeral_at, parse_u32_at, u64_to_decimal, lemma_dec_of_canonical,
    lemma_dec_of_injective, lemma_numeral_at_unique,
};

verus! {

/// The canonical text of a two-number record.
pub open spec fn pair_encoding(
    open: Seq<char>,
    mid: Seq<char>,
    close: Seq<char>,
    a: nat,
    b: nat,
) -> Seq<char> {
    open + dec_of(a) + mid + dec_of(b) + close
}

/// The canonical text of a one-number record.
pub open spec fn single_encoding(open: Seq<char>, close: Seq<char>, a: nat) -> Seq<char> {
    open + dec_of(a) + close
}

/// A delimiter that ends a numeral unambiguously: non-empty and not
/// beginning with a digit.
pub open spec fn closes_numeral(s: Seq<char>) -> bool {
    s.len() >= 1 && !is_dec_digit(s[0])
}

/// Where each piece of a two-number record sits inside its encoding.
pub proof fn lemma_pair_shape(
    open: Seq<char>,
    mid: Seq<char>,
    close: Seq<char>,
    a: nat,
    b: nat,
    t: Seq<char>,
)
    requires
        t == pair_encoding(open, mid, close, a, b),
        closes_numeral(mid),
        closes_numeral(close),
    ensures
        t.len() == open.len() + dec_of(a).len() + mid.len() + dec_of(b).len() + close.len(),
        t.subrange(0, open.len() as int) == open,
        numeral_at(t, open.len() as int, dec_of(a)),
        t.subrange(
            open.len() + dec_of(a).len() as int,
            open.len() + dec_of(a).len() + mid.len() as int,
        ) == mid,
        numeral_at(t, open.len() + dec_of(a).len() + mid.len() as int, dec_of(b)),
        t.subrange(t.len() - close.len(), t.len() as int) == close,
{
    lemma_dec_of_canonical(a);
    lemma_dec_of_canonical(b);
    let e1 = open.len() + dec_of(a).len();
    let e2 = e1 + mid.len();
    let e3 = e2 + dec_of(b).len();
    assert(t.subrange(0, open.len() as int) =~= open);
    assert(t.subrange(open.len() as int, e1 as int) =~= dec_of(a));
    assert(t.subrange(e1 as int, e2 as int) =~= mid);
    assert(t.subrange(e2 as int, e3 as int) =~= dec_of(b));
    assert(t.subrange(e3 as int, t.len() as int) =~= close);
    assert(t[e1 as int] == mid[0]);
    assert(t[e3 as int] == close[0]);
}

/// Where each piece of a one-number record sits inside its encoding.
pub proof fn lemma_single_shape(open: Seq<char>, close: Seq<char>, a: nat, t: Seq<char>)
    requires
        t == single_encoding(open, close, a),
        closes_numeral(close),
    ensures
        t.len() == open.len() + dec_of(a).len() + close.len(),
        t.subrange(0, open.len() as int) == open,
        numeral_at(t, open.len() as int, dec_of(a)),
        t.subrange(t.len() - close.len(), t.len() as int) == close,
{
    lemma_dec_of_canonical(a);
    let e1 = open.len() + dec_of(a).len();
    assert(t.subrange(0, open.len() as int) =~= open);
    assert(t.subrange(open.len() as int, e1 as int) =~= dec_of(a));
    assert(t.subrange(e1 as int, t.len() as int) =~= close);
    assert(t[e1 as int] == close[0]);
}

/// Two pairs with the same encoding are the same pair.
pub proof fn lemma_pair_encoding_injective(
    open: Seq<char>,
    mid: Seq<char>,
    close: Seq<char>,
    a1: nat,
    b1: nat,
    a2: nat,
    b2: nat,
)
    requires
        closes_numeral(mid),
        closes_numeral(close),
        pair_encoding(open, mid, close, a1, b1) == pair_encoding(open, mid, close, a2, b2),
    ensures
        a1 == a2,
        b1 == b2,
{
    let t = pair_encoding(open, mid, close, a1, b1);
    lemma_pair_shape(open, mid, close, a1, b1, t);
    lemma_pair_shape(open, mid, close, a2, b2, t);
    lemma_dec_of_canonical(a1);
    lemma_dec_of_canonical(a2);
    lemma_dec_of_canonical(b1);
    lemma_dec_of_canonical(b2);
    lemma_numeral_at_unique(t, open.len() as int, dec_of(a1), dec_of(a2));
    lemma_dec_of_injective(a1, a2);
    lemma_numeral_at_unique(
        t,
        open.len() + dec_of(a1).len() + mid.len() as int,
        dec_of(b1),
        dec_of(b2),
    );
    lemma_dec_of_injective(b1, b2);
}

/// Two numbers with the same one-field encoding are the same number.
pub proof fn lemma_single_encoding_injective(
    open: Seq<char>,
    close: Seq<char>,
    a1: nat,
    a2: nat,
)
    requires
        closes_numeral(close),
        single_encoding(open, close, a1) == single_encoding(open, close, a2),
    ensures
        a1 == a2,
{
    let t = single_encoding(open, close, a1);
    lemma_single_shape(open, close, a1, t);
    lemma_single_shape(open, close, a2, t);
    lemma_dec_of_canonical(a1);
    lemma_dec_of_canonical(a2);
    lemma_numeral_at_unique(t, open.len() as int, dec_of(a1), dec_of(a2));
    lemma_dec_of_injective(a1, a2);
}

/// One character of a printed error: the five characters that Rust's Debug
/// formatting escapes with a short sequence — the double quote, the
/// backslash, the newline, the carriage return and the tab — become that
/// sequence; any other character passes through unchanged.
pub open spec fn escaped_char(c: char) -> Seq<char> {
    if c == '"' {
        seq!['\\', '"']
    } else if c == '\\' {
        seq!['\\', '\\']
    } else if c == '\n' {
        seq!['\\', 'n']
    } else if c == '\r' {
        seq!['\\', 'r']
    } else if c == '\t' {
        seq!['\\', 't']
    } else {
        seq![c]
    }
}

/// A text with each character escaped as above.
pub open spec fn escaped(s: Seq<char>) -> Seq<char>
    decreases s.len(),
{
    if s.len() == 0 {
        Seq::empty()
    } else {
        escaped(s.drop_last()) + escaped_char(s.last())
    }
}

/// A text between double quotes, with quotes, backslashes and the common
/// control characters escaped: the printed form of a string error. The
/// escaping keeps the text on one line, so it cannot break out of the
/// comment that carries it in a generated test.
pub open spec fn quoted(s: Seq<char>) -> Seq<char> {
    "\""@ + escaped(s) + "\""@
}

/// Wraps a text in double quotes, escaping it as `quoted` says.
pub fn quote_text(text: &str) -> (s: String)
    ensures
        s@ == quoted(text@),
{
    let ghost t = text@;
    let mut out = String::from_str("\"");
    let len = text.unicode_len();
    let mut i: usize = 0;
    proof {
        assert(t.take(0) =~= Seq::<char>::empty());
        assert(out@ =~= "\""@ + escaped(t.take(0)));
    }
    while i < len
        invariant
            i <= len,
            len == t.len(),
            t == text@,
            out@ == "\""@ + escaped(t.take(i as int)),
        decreases len - i,
    {
        let c = text.get_char(i);
        if c == '"' {
            out.append("\\\"");
        } else if c == '\\' {
            out.append("\\\\");
        } else if c == '\n' {
            out.append("\\n");
        } else if c == '\r' {
            out.append("\\r");
        } else if c == '\t' {
            out.append("\\t");
        } else {
            let piece = text.substring_char(i, i + 1);
            out.append(piece);
        }
        proof {
            reveal_strlit("\\\"");
            reveal_strlit("\\\\");
            reveal_strlit("\\n");
            reveal_strlit("\\r");
            reveal_strlit("\\t");
            assert(t.subrange(i as int, i + 1) =~= seq![t[i as int]]);
            assert(t.take(i + 1).drop_last() =~= t.take(i as int));
            assert(t.take(i + 1).last() == t[i as int]);
            assert(out@ =~= "\""@ + escaped(t.take(i + 1)));
        }
        i += 1;
    }
    out.append("\"");
    proof {
        assert(t.take(len as int) =~= t);
        assert(out@ =~= quoted(t));
    }
    out
}

/// Whether `pat` sits in `text` at position `pos`.
pub fn match_at(text: &str, pos: usize, pat: &str) -> (b: bool)
    requires
        pos <= text@.len(),
    ensures
        b <==> (pos + pat@.len() <= text@.len() && text@.subrange(pos as int, pos + pat@.len())
            == pat@),
{
    let tlen = text.unicode_len();
    let plen = pat.unicode_len();
    if plen > tlen - pos {
        return false;
    }
    let mut j: usize = 0;
    while j < plen
        invariant
            j <= plen,
            pos + plen <= tlen,
            tlen == text@.len(),
            plen == pat@.len(),
            forall|k: int| 0 <= k < j ==> text@[pos + k] == #[trigger] pat@[k],
        decreases plen - j,
    {
        let a = text.get_char(pos + j);
        let c = pat.get_char(j);
        if a != c {
            proof {
                assert(text@.subrange(pos as int, pos + pat@.len()) == pat@ ==> text@.subrange(
                    pos as int,
                    pos + pat@.len(),
                )[j as int] == pat@[j as int]);
            }
            return false;
        }
        j += 1;
    }
    proof {
        assert(text@.subrange(pos as int, pos + pat@.len()) =~= pat@);
    }
    true
}

/// Encodes a two-number record canonically.
pub fn encode_pair(open: &str, mid: &str, close: &str, a: u32, b: u32) -> (s: String)
    ensures
        s@ == pair_encoding(open@, mid@, close@, a as nat, b as nat),
{
    let mut s = String::from_str(open);
    let d1 = u64_to_decimal(a as u64);
    s.append(d1.as_str());
    s.append(mid);
    let d2 = u64_to_decimal(b as u64);
    s.append(d2.as_str());
    s.append(close);
    proof {
        assert(s@ =~= pair_encoding(open@, mid@, close@, a as nat, b as nat));
    }
    s
}

/// Encodes a one-number record canonically.
pub fn encode_single(open: &str, close: &str, a: u32) -> (s: String)
    ensures
        s@ == single_encoding(open@, close@, a as nat),
{
    let mut s = String::from_str(open);
    let d1 = u64_to_decimal(a as u64);
    s.append(d1.as_str());
    s.append(close);
    proof {
        assert(s@ =~= single_encoding(open@, close@, a as nat));
    }
    s
}

/// Decodes a two-number record: succeeds exactly on the canonical
/// encodings, and then returns the one pair encoded.
pub fn decode_pair(text: &str, open: &str, mid: &str, close: &str) -> (r: Option<(u32, u32)>)
    requires
        closes_numeral(mid@),
        closes_numeral(close@),
    ensures
        r matches Some(p) ==> text@ == pair_encoding(open@, mid@, close@, p.0 as nat, p.1 as nat),
        r is None ==> forall|a: u32, b: u32|
            text@ != #[trigger] pair_encoding(open@, mid@, close@, a as nat, b as nat),
{
    let ghost t = text@;
    let tlen = text.unicode_len();
    if !match_at(text, 0, open) {
        proof {
            assert forall|a: u32, b: u32|
                t != #[trigger] pair_encoding(open@, mid@, close@, a as nat, b as nat) by {
                if t == pair_encoding(open@, mid@, close@, a as nat, b as nat) {
                    lemma_pair_shape(open@, mid@, close@, a as nat, b as nat, t);
                }
            }
        }
        return None;
    }
    let olen = open.unicode_len();
    let (v1, pos2) = match parse_u32_at(text, olen) {
        Some(p) => p,
        None => {
            proof {
                assert forall|a: u32, b: u32|
                    t != #[trigger] pair_encoding(open@, mid@, close@, a as nat, b as nat) by {
                    if t == pair_encoding(open@, mid@, close@, a as nat, b as nat) {
                        lemma_pair_shape(open@, mid@, close@, a as nat, b as nat, t);
                    }
                }
            }
            return None;
        },
    };
    proof {
        lemma_dec_of_canonical(v1 as nat);
    }
    if !match_at(text, pos2, mid) {
        proof {
            assert forall|a: u32, b: u32|
                t != #[trigger] pair_encoding(open@, mid@, close@, a as nat, b as nat) by {
                if t == pair_encoding(open@, mid@, close@, a as nat, b as nat) {
                    lemma_pair_shape(open@, mid@, close@, a as nat, b as nat, t);
                    lemma_dec_of_canonical(a as nat);
                    lemma_numeral_at_unique(t, olen as int, dec_of(v1 as nat), dec_of(a as nat));
                }
            }
        }
        return None;
    }
    let pos3 = pos2 + mid.unicode_len();
    let (v2, pos4) = match parse_u32_at(text, pos3) {
        Some(p) => p,
        None => {
            proof {
                assert forall|a: u32, b: u32|
                    t != #[trigger] pair_encoding(open@, mid@, close@, a as nat, b as nat) by {
                    if t == pair_encoding(open@, mid@, close@, a as nat, b as nat) {
                        lemma_pair_shape(open@, mid@, close@, a as nat, b as nat, t);
                        lemma_dec_of_canonical(a as nat);
                        lemma_numeral_at_unique(
                            t,
                            olen as int,
                            dec_of(v1 as nat),
                            dec_of(a as nat),
                        );
                    }
                }
            }
            return None;
        },
    };
    proof {
        lemma_dec_of_canonical(v2 as nat);
    }
    if !match_at(text, pos4, close) {
        proof {
            assert forall|a: u32, b: u32|
                t != #[trigger] pair_encoding(open@, mid@, close@, a as nat, b as nat) by {
                if t == pair_encoding(open@, mid@, close@, a as nat, b as nat) {
                    lemma_pair_shape(open@, mid@, close@, a as nat, b as nat, t);
                    lemma_dec_of_canonical(a as nat);
                    lemma_dec_of_canonical(b as nat);
                    lemma_numeral_at_unique(t, olen as int, dec_of(v1 as nat), dec_of(a as nat));
                    lemma_numeral_at_unique(t, pos3 as int, dec_of(v2 as nat), dec_of(b as nat));
                }
            }
        }
        return None;
    }
    let end = pos4 + close.unicode_len();
    if end != tlen {
        proof {
            assert forall|a: u32, b: u32|
                t != #[trigger] pair_encoding(open@, mid@, close@, a as nat, b as nat) by {
                if t == pair_encoding(open@, mid@, close@, a as nat, b as nat) {
                    lemma_pair_shape(open@, mid@, close@, a as nat, b as nat, t);
                    lemma_dec_of_canonical(a as nat);
                    lemma_dec_of_canonical(b as nat);
                    lemma_numeral_at_unique(t, olen as int, dec_of(v1 as nat), dec_of(a as nat));
                    lemma_numeral_at_unique(t, pos3 as int, dec_of(v2 as nat), dec_of(b as nat));
                }
            }
        }
        return None;
    }
    proof {
        let rhs = pair_encoding(open@, mid@, close@, v1 as nat, v2 as nat);
        assert forall|i: int| 0 <= i < t.len() implies t[i] == rhs[i] by {
            if i < olen {
                assert(t[i] == t.subrange(0, olen as int)[i]);
            } else if i < pos2 {
                assert(t[i] == t.subrange(olen as int, pos2 as int)[i - olen]);
            } else if i < pos3 {
                assert(t[i] == t.subrange(pos2 as int, pos2 + mid@.len())[i - pos2]);
            } else if i < pos4 {
                assert(t[i] == t.subrange(pos3 as int, pos4 as int)[i - pos3]);
            } else {
                assert(t[i] == t.subrange(pos4 as int, pos4 + close@.len())[i - pos4]);
            }
        }
        assert(t =~= rhs);
    }
    Some((v1, v2))
}

/// Decodes a one-number record: succeeds exactly on the canonical
/// encodings, and then returns the one number encoded.
pub fn decode_single(text: &str, open: &str, close: &str) -> (r: Option<u32>)
    requires
        closes_numeral(close@),
    ensures
        r matches Some(a) ==> text@ == single_encoding(open@, close@, a as nat),
        r is None ==> forall|a: u32| text@ != #[trigger] single_encoding(open@, close@, a as nat),
{
    let ghost t = text@;
    let tlen = text.unicode_len();
    if !match_at(text, 0, open) {
        proof {
            assert forall|a: u32| t != #[trigger] single_encoding(open@, close@, a as nat) by {
                if t == single_encoding(open@, close@, a as nat) {
                    lemma_single_shape(open@, close@, a as nat, t);
                }
            }
        }
        return None;
    }
    let olen = open.unicode_len();
    let (v1, pos2) = match parse_u32_at(text, olen) {
        Some(p) => p,
        None => {
            proof {
                assert forall|a: u32| t != #[trigger] single_encoding(open@, close@, a as nat) by {
                    if t == single_encoding(open@, close@, a as nat) {
                        lemma_single_shape(open@, close@, a as nat, t);
                    }
                }
            }
            return None;
        },
    };
    proof {
        lemma_dec_of_canonical(v1 as nat);
    }
    if !match_at(text, pos2, close) {
        proof {
            assert forall|a: u32| t != #[trigger] single_encoding(open@, close@, a as nat) by {
                if t == single_encoding(open@, close@, a as nat) {
                    lemma_single_shape(open@, close@, a as nat, t);
                    lemma_dec_of_canonical(a as nat);
                    lemma_numeral_at_unique(t, olen as int, dec_of(v1 as nat), dec_of(a as nat));
                }
            }
        }
        return None;
    }
    let end = pos2 + close.unicode_len();
    if end != tlen {
        proof {
            assert forall|a: u32| t != #[trigger] single_encoding(open@, close@, a as nat) by {
                if t == single_encoding(open@, close@, a as nat) {
                    lemma_single_shape(open@, close@, a as nat, t);
                    lemma_dec_of_canonical(a as nat);
                    lemma_numeral_at_unique(t, olen as int, dec_of(v1 as nat), dec_of(a as nat));
                }
            }
        }
        return None;
    }
    proof {
        let rhs = single_encoding(open@, close@, v1 as nat);
        assert forall|i: int| 0 <= i < t.len() implies t[i] == rhs[i] by {
            if i < olen {
                assert(t[i] == t.subrange(0, olen as int)[i]);
            } else if i < pos2 {
                assert(t[i] == t.subrange(olen as int, pos2 as int)[i - olen]);
            } else {
                assert(t[i] == t.subrange(pos2 as int, pos2 + close@.len())[i - pos2]);
            }
        }
        assert(t =~= rhs);
    }
    Some(v1)
}

} // verus!
