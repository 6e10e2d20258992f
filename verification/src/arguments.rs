//! The canonical text codec for a pair of numbers used as invocation
//! arguments: a two-element pretty-printed array.
use vstd::prelude::*;
use crate::executable::DecodeError;
use crate::payload::{
    closes_numeral, decode_pair, encode_pair, lemma_pair_encoding_injective, pair_encoding,
};

verus! {

/// The text before the first element of an arguments array.
pub open spec fn arguments_open() -> Seq<char> {
    "[\n  "@
}

/// The text between the two elements of an arguments array.
pub open spec fn arguments_mid() -> Seq<char> {
    ",\n  "@
}

/// The text after the last element of an arguments array.
pub open spec fn arguments_close() -> Seq<char> {
    "\n]"@
}

/// The canonical text of a pair of numbers as an arguments array.
pub open spec fn pair_arguments_encoding(args: (u32, u32)) -> Seq<char> {
    pair_encoding(arguments_open(), arguments_mid(), arguments_close(), args.0 as nat, args.1 as nat)
}

/// The delimiters of an arguments array end its numerals unambiguously.
pub proof fn lemma_arguments_delimiters()
    ensures
        closes_numeral(arguments_mid()),
        closes_numeral(arguments_close()),
{
    reveal_strlit(",\n  ");
    reveal_strlit("\n]");
}

/// Encodes a pair of numbers as a canonical arguments array.
pub fn encode_pair_arguments(args: &(u32, u32)) -> (s: String)
    ensures
        s@ == pair_arguments_encoding(*args),
{
    encode_pair("[\n  ", ",\n  ", "\n]", args.0, args.1)
}

/// Decodes a canonical arguments array back to the one pair it encodes.
pub fn decode_pair_arguments(text: &str) -> (r: Result<(u32, u32), DecodeError>)
    ensures
        forall|a: (u32, u32)| (#[trigger] pair_arguments_encoding(a)) == text@ ==> r == Ok::<
            (u32, u32),
            DecodeError,
        >(a),
        r matches Ok(a) ==> pair_arguments_encoding(a) == text@,
{
    proof {
        lemma_arguments_delimiters();
    }
    match decode_pair(text, "[\n  ", ",\n  ", "\n]") {
        Some((x, y)) => {
            proof {
                assert forall|a: (u32, u32)| (#[trigger] pair_arguments_encoding(a)) == text@
                    implies (x, y) == a by {
                    lemma_arguments_delimiters();
                    lemma_pair_encoding_injective(
                        arguments_open(),
                        arguments_mid(),
                        arguments_close(),
                        a.0 as nat,
                        a.1 as nat,
                        x as nat,
                        y as nat,
                    );
                }
            }
            Ok((x, y))
        },
        None => {
            proof {
                assert forall|a: (u32, u32)| (#[trigger] pair_arguments_encoding(a)) != text@ by {
                    assert(text@ != pair_encoding(
                        arguments_open(),
                        arguments_mid(),
                        arguments_close(),
                        a.0 as nat,
                        a.1 as nat,
                    ));
                }
            }
            Err(DecodeError::Malformed)
        },
    }
}

} // verus!
