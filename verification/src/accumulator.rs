//! A second example operation, one whose invocation mutates its state
//! before it can fail: the pre-invocation snapshot taken by the execution
//! wrapper is visibly different from the state the failing call leaves.
use vstd::prelude::*;
use vstd::string::*;
use crate::arguments::{decode_pair_arguments, encode_pair_arguments, pair_arguments_encoding};
use crate::executable::{DecodeError, EncodeError, Executable};
use crate::payload::{
    closes_numeral, decode_single, encode_single, lemma_single_encoding_injective, quote_text,
    quoted, single_encoding,
};

verus! {

/// The text before the one field of the accumulator's state.
pub open spec fn accumulator_open() -> Seq<char> {
    "{\n  \"total\": "@
}

/// The text after the one field of the accumulator's state.
pub open spec fn accumulator_close() -> Seq<char> {
    "\n}"@
}

/// The closing delimiter ends the numeral unambiguously.
pub proof fn lemma_accumulator_delimiters()
    ensures
        closes_numeral(accumulator_close()),
{
    reveal_strlit("\n}");
}

/// A running total. Invoking it first adds the first argument to the total
/// (saturating at the largest value), then divides the new total among as
/// many recipients as the second argument names; with no recipients it
/// fails, after the total has already been mutated.
#[derive(PartialEq, Eq, Structural, Debug)]
pub struct Accumulator {
    /// The running total.
    pub total: u32,
}

/// Two totals with the same canonical encoding are the same total.
pub proof fn lemma_accumulator_encoding_injective(a: Accumulator, b: Accumulator)
    requires
        a.encoding() == b.encoding(),
    ensures
        a == b,
{
    lemma_accumulator_delimiters();
    lemma_single_encoding_injective(
        accumulator_open(),
        accumulator_close(),
        a.total as nat,
        b.total as nat,
    );
}

/// The accumulator's invocation relation admits one outcome per pre-state
/// and arguments. Together with `execute`'s contract this gives the purity
/// of the success path: a successful run returns exactly the share the
/// invocation produced, and the state after it is the one the invocation
/// itself left.
pub proof fn lemma_accumulator_invoke_deterministic(
    pre: Accumulator,
    post1: Accumulator,
    post2: Accumulator,
    args: (u32, u32),
    out1: Result<u32, String>,
    out2: Result<u32, String>,
)
    requires
        Accumulator::invoke_ensures(pre, post1, args, out1),
        Accumulator::invoke_ensures(pre, post2, args, out2),
    ensures
        post1 == post2,
        out1 is Ok <==> out2 is Ok,
        (out1 is Ok && out2 is Ok) ==> out1->Ok_0 == out2->Ok_0,
        (out1 is Err && out2 is Err) ==> out1->Err_0@ == out2->Err_0@,
{
}

impl Executable for Accumulator {
    type Output = u32;

    type Error = String;

    type Arguments = (u32, u32);

    open spec fn full_path_spec() -> Seq<char> {
        "::Accumulator"@
    }

    open spec fn description_spec(&self) -> Seq<char> {
        "Accumulates deposits and divides the total among recipients."@
    }

    open spec fn encoding(&self) -> Option<Seq<char>> {
        Some(single_encoding(accumulator_open(), accumulator_close(), self.total as nat))
    }

    open spec fn arguments_encoding(args: (u32, u32)) -> Option<Seq<char>> {
        Some(pair_arguments_encoding(args))
    }

    open spec fn error_text_spec(err: String) -> Seq<char> {
        quoted(err@)
    }

    open spec fn invoke_ensures(
        pre: Self,
        post: Self,
        args: (u32, u32),
        out: Result<u32, String>,
    ) -> bool {
        &&& post.total == if pre.total + args.0 <= u32::MAX {
            pre.total + args.0
        } else {
            u32::MAX as int
        }
        &&& (args.1 == 0 ==> (out matches Err(e) && e@ == "no recipients"@))
        &&& (args.1 != 0 ==> (out matches Ok(q) && q == post.total as int / args.1 as int))
    }

    fn full_path(&self) -> &'static str {
        "::Accumulator"
    }

    fn description(&self) -> String {
        String::from_str("Accumulates deposits and divides the total among recipients.")
    }

    fn duplicate(&self) -> Self {
        Accumulator { total: self.total }
    }

    fn encode(&self) -> Result<String, EncodeError> {
        Ok(encode_single("{\n  \"total\": ", "\n}", self.total))
    }

    fn decode(text: &str) -> Result<Self, DecodeError> {
        proof {
            lemma_accumulator_delimiters();
        }
        match decode_single(text, "{\n  \"total\": ", "\n}") {
            Some(a) => {
                let w = Accumulator { total: a };
                proof {
                    assert forall|v: Self| (#[trigger] v.encoding()) == Some(text@) implies w
                        == v by {
                        lemma_accumulator_delimiters();
                        lemma_single_encoding_injective(
                            accumulator_open(),
                            accumulator_close(),
                            v.total as nat,
                            a as nat,
                        );
                    }
                }
                Ok(w)
            },
            None => {
                proof {
                    assert forall|v: Self| (#[trigger] v.encoding()) != Some(text@) by {
                        assert(text@ != single_encoding(
                            accumulator_open(),
                            accumulator_close(),
                            v.total as nat,
                        ));
                    }
                }
                Err(DecodeError::Malformed)
            },
        }
    }

    fn encode_arguments(args: &(u32, u32)) -> Result<String, EncodeError> {
        Ok(encode_pair_arguments(args))
    }

    fn decode_arguments(text: &str) -> Result<(u32, u32), DecodeError> {
        decode_pair_arguments(text)
    }

    fn error_text(err: &String) -> String {
        quote_text(err.as_str())
    }

    fn execute(&mut self, args: &(u32, u32)) -> Result<u32, String> {
        if self.total <= u32::MAX - args.0 {
            self.total = self.total + args.0;
        } else {
            self.total = u32::MAX;
        }
        if args.1 == 0 {
            Err(String::from_str("no recipients"))
        } else {
            Ok(self.total / args.1)
        }
    }
}

} // verus!
