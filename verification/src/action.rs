//! The example operation from the crate documentation: two counters and an
//! invocation that fails whenever the first argument is three.
use vstd::prelude::*;
use vstd::string::*;
use crate::arguments::{decode_pair_arguments, encode_pair_arguments, pair_arguments_encoding};
use crate::executable::{DecodeError, EncodeError, Executable};
use crate::payload::{
    closes_numeral, decode_pair, encode_pair, lemma_pair_encoding_injective, pair_encoding,
    quote_text, quoted,
};

verus! {

/// The text before the first field of the operation's state.
pub open spec fn action_open() -> Seq<char> {
    "{\n  \"var_1\": "@
}

/// The text between the two fields of the operation's state.
pub open spec fn action_mid() -> Seq<char> {
    ",\n  \"var_2\": "@
}

/// The text after the last field of the operation's state.
pub open spec fn action_close() -> Seq<char> {
    "\n}"@
}

/// The delimiters of the operation's state end its numerals unambiguously.
pub proof fn lemma_action_delimiters()
    ensures
        closes_numeral(action_mid()),
        closes_numeral(action_close()),
{
    reveal_strlit(",\n  \"var_2\": ");
    reveal_strlit("\n}");
}

/// A domain action with two counters. Invoking it fails, with the error
/// text `Whoopsie`, exactly when the first argument is three; it never
/// mutates its state.
#[derive(PartialEq, Eq, Structural, Debug)]
pub struct SomeImportantAction {
    /// The first counter.
    pub var_1: u32,
    /// The second counter.
    pub var_2: u32,
}

/// Two states with the same canonical encoding are the same state: nothing
/// is lost in the round trip through text.
pub proof fn lemma_action_encoding_injective(a: SomeImportantAction, b: SomeImportantAction)
    requires
        a.encoding() == b.encoding(),
    ensures
        a == b,
{
    lemma_action_delimiters();
    lemma_pair_encoding_injective(
        action_open(),
        action_mid(),
        action_close(),
        a.var_1 as nat,
        a.var_2 as nat,
        b.var_1 as nat,
        b.var_2 as nat,
    );
}

/// Two argument pairs with the same canonical encoding are the same pair.
pub proof fn lemma_action_arguments_injective(x: (u32, u32), y: (u32, u32))
    requires
        SomeImportantAction::arguments_encoding(x) == SomeImportantAction::arguments_encoding(y),
    ensures
        x == y,
{
    crate::arguments::lemma_arguments_delimiters();
    lemma_pair_encoding_injective(
        crate::arguments::arguments_open(),
        crate::arguments::arguments_mid(),
        crate::arguments::arguments_close(),
        x.0 as nat,
        x.1 as nat,
        y.0 as nat,
        y.1 as nat,
    );
}

/// The operation's invocation relation admits one outcome per pre-state
/// and arguments. Together with `execute`'s contract this gives the purity
/// of the success path: a successful run returns exactly the success value
/// the invocation produced, and the state after it is the one the
/// invocation itself left.
pub proof fn lemma_action_invoke_deterministic(
    pre: SomeImportantAction,
    post1: SomeImportantAction,
    post2: SomeImportantAction,
    args: (u32, u32),
    out1: Result<(), String>,
    out2: Result<(), String>,
)
    requires
        SomeImportantAction::invoke_ensures(pre, post1, args, out1),
        SomeImportantAction::invoke_ensures(pre, post2, args, out2),
    ensures
        post1 == post2,
        out1 is Ok <==> out2 is Ok,
        (out1 is Ok && out2 is Ok) ==> out1->Ok_0 == out2->Ok_0,
        (out1 is Err && out2 is Err) ==> out1->Err_0@ == out2->Err_0@,
{
}

impl Executable for SomeImportantAction {
    type Output = ();

    type Error = String;

    type Arguments = (u32, u32);

    open spec fn full_path_spec() -> Seq<char> {
        "::SomeImportantAction"@
    }

    open spec fn description_spec(&self) -> Seq<char> {
        "Executes some very important action!"@
    }

    open spec fn encoding(&self) -> Option<Seq<char>> {
        Some(
            pair_encoding(
                action_open(),
                action_mid(),
                action_close(),
                self.var_1 as nat,
                self.var_2 as nat,
            ),
        )
    }

    open spec fn arguments_encoding(args: (u32, u32)) -> Option<Seq<char>> {
        Some(pair_arguments_encoding(args))
    }

    open spec fn error_text_spec(err: String) -> Seq<char> {
        quoted(err@)
    }

    open spec fn invoke_ensures(
        pre: Self,
        post: Self,
        args: (u32, u32),
        out: Result<(), String>,
    ) -> bool {
        &&& post == pre
        &&& (args.0 == 3 ==> (out matches Err(e) && e@ == "Whoopsie"@))
        &&& (args.0 != 3 ==> out == Ok::<(), String>(()))
    }

    fn full_path(&self) -> &'static str {
        "::SomeImportantAction"
    }

    fn description(&self) -> String {
        String::from_str("Executes some very important action!")
    }

    fn duplicate(&self) -> Self {
        SomeImportantAction { var_1: self.var_1, var_2: self.var_2 }
    }

    fn encode(&self) -> Result<String, EncodeError> {
        Ok(encode_pair("{\n  \"var_1\": ", ",\n  \"var_2\": ", "\n}", self.var_1, self.var_2))
    }

    fn decode(text: &str) -> Result<Self, DecodeError> {
        proof {
            lemma_action_delimiters();
        }
        match decode_pair(text, "{\n  \"var_1\": ", ",\n  \"var_2\": ", "\n}") {
            Some((a, b)) => {
                let w = SomeImportantAction { var_1: a, var_2: b };
                proof {
                    assert forall|v: Self| (#[trigger] v.encoding()) == Some(text@) implies w
                        == v by {
                        lemma_action_delimiters();
                        lemma_pair_encoding_injective(
                            action_open(),
                            action_mid(),
                            action_close(),
                            v.var_1 as nat,
                            v.var_2 as nat,
                            a as nat,
                            b as nat,
                        );
                    }
                }
                Ok(w)
            },
            None => {
                proof {
                    assert forall|v: Self| (#[trigger] v.encoding()) != Some(text@) by {
                        assert(text@ != pair_encoding(
                            action_open(),
                            action_mid(),
                            action_close(),
                            v.var_1 as nat,
                            v.var_2 as nat,
                        ));
                    }
                }
                Err(DecodeError::Malformed)
            },
        }
    }

    fn encode_arguments(args: &(u32, u32)) -> Result<String, EncodeError> {
        Ok(encode_pair_arguments(args))
    }

    fn decode_arguments(text: &str) -> Result<(u32, u32), DecodeError> {
        decode_pair_arguments(text)
    }

    fn error_text(err: &String) -> String {
        quote_text(err.as_str())
    }

    fn execute(&mut self, args: &(u32, u32)) -> Result<(), String> {
        if args.0 == 3 {
            Err(String::from_str("Whoopsie"))
        } else {
            Ok(())
        }
    }
}

} // verus!
