//! The execution wrapper and the test renderer: invoking an operation with
//! a pre-invocation snapshot, and turning a captured failure into the text
//! of a self-contained regression test.
use vstd::prelude::*;
use vstd::string::*;
use crate::capture_time::{
    now_millis, rfc2822_from_millis, rfc2822_of, rfc2822_representable, MILLIS_LIMIT,
};
use crate::decimal::{
    dec_of, lemma_dec_of_canonical, lemma_dec_of_injective, lemma_numeral_at_unique, numeral_at,
    u64_to_decimal,
};
use crate::executable::Executable;

verus! {

/// Why a captured failure could not be rendered.
#[derive(PartialEq, Eq, Structural, Debug)]
pub enum RenderError {
    /// The capture time lies before the epoch or past year 9999, so no
    /// header timestamp can be written for it.
    TimestampOutOfRange,
    /// The operation snapshot has no canonical text encoding.
    OperationEncoding,
    /// The arguments have no canonical text encoding.
    ArgumentsEncoding,
}

/// A unit test in the making: the error an operation's invocation returned,
/// the arguments that caused it, the operation's state from immediately
/// before the failing call, and the capture time in milliseconds since the
/// Unix epoch.
pub struct UnitTest<'a, E: Executable> {
    /// The error the failing invocation returned.
    pub error: E::Error,
    /// The arguments handed to the failing invocation.
    pub arguments: &'a E::Arguments,
    /// The operation as it was immediately before the failing invocation.
    pub executable: E,
    /// The capture time: milliseconds since the Unix epoch.
    pub time: i64,
}

/// Invokes `executable` with `arguments` after duplicating it. On success
/// the result passes through unchanged and nothing else happens; on failure
/// the pre-invocation duplicate, the error, the arguments, and the capture
/// time are bundled into a [`UnitTest`].
pub fn execute<'a, E: Executable>(executable: &mut E, arguments: &'a E::Arguments) -> (r: Result<
    E::Output,
    UnitTest<'a, E>,
>)
    ensures
        (r matches Ok(value) ==> E::invoke_ensures(
            *old(executable),
            *final(executable),
            *arguments,
            Ok(value),
        )),
        (r matches Err(unit_test) ==> {
            &&& unit_test.executable == *old(executable)
            &&& unit_test.arguments == arguments
            &&& E::invoke_ensures(*old(executable), *final(executable), *arguments, Err(unit_test.error))
        }),
{
    let snapshot = executable.duplicate();
    match executable.execute(arguments) {
        Ok(value) => Ok(value),
        Err(error) => Err(
            UnitTest { error, arguments, executable: snapshot, time: now_millis() },
        ),
    }
}

/// The generated test's name: `test_` followed by the capture time in
/// milliseconds.
pub open spec fn test_name_of(millis: nat) -> Seq<char> {
    "test_"@ + dec_of(millis)
}

/// Distinct capture instants give distinct generated test names.
pub proof fn lemma_test_names_unique(m1: nat, m2: nat)
    requires
        m1 != m2,
    ensures
        test_name_of(m1) != test_name_of(m2),
{
    lemma_dec_of_injective(m1, m2);
    if test_name_of(m1) == test_name_of(m2) {
        let p = "test_"@;
        assert((p + dec_of(m1)).subrange(p.len() as int, (p + dec_of(m1)).len() as int) =~= dec_of(
            m1,
        ));
        assert((p + dec_of(m2)).subrange(p.len() as int, (p + dec_of(m2)).len() as int) =~= dec_of(
            m2,
        ));
        assert(false);
    }
}

/// The full text of one generated test: a documentation header (generation
/// marker, intent, timestamp, printed error), a uniquely named test
/// function, the two embedded payloads with their decode calls, and the
/// re-invocation with its failure assertion.
pub open spec fn rendered_spec(
    description: Seq<char>,
    time_text: Seq<char>,
    millis: nat,
    error: Seq<char>,
    full_path: Seq<char>,
    obj: Seq<char>,
    args: Seq<char>,
) -> Seq<char> {
    "/// Automatically generated unit test for Executable\n\n"@ + "/// "@ + description + "\n"@
        + "/// generated at "@ + time_text + "\n\n"@ + "/// exception was "@ + error + "\n"@
        + "#[test]\n"@ + "pub fn "@ + test_name_of(millis) + "() {\n"@
        + "\tuse exceptional::Executable;\n"@ + "\tlet obj_json = r#\""@ + obj + "\"#;\n"@
        + "\tlet mut obj: "@ + full_path
        + " = ::serde_json::from_str(obj_json).expect(\"Could not deserialize json\");\n"@
        + "\t\n"@ + "\tlet arg_json = r#\""@ + args + "\"#;\n"@
        + "\tlet args = ::serde_json::from_str(arg_json).expect(\"Could not deserialize json\");\n"@
        + "\n"@ + "\tif let Err(e) = obj.execute(&args) {\n"@
        + "\t\tprintln!(\"Could not execute {}\", obj.description());\n"@
        + "\t\tprintln!(\"{:?}\", e);\n"@ + "\t\tpanic!();\n"@ + "\t}\n"@ + "}\n"@
}

/// Where the digits of the generated name sit inside a rendered block.
pub open spec fn name_digits_pos(
    description: Seq<char>,
    time_text: Seq<char>,
    error: Seq<char>,
) -> int {
    "/// Automatically generated unit test for Executable\n\n"@.len() as int + "/// "@.len()
        + description.len() + "\n"@.len() + "/// generated at "@.len() + time_text.len()
        + "\n\n"@.len() + "/// exception was "@.len() + error.len() + "\n"@.len()
        + "#[test]\n"@.len() + "pub fn "@.len() + "test_"@.len()
}

/// A rendered block carries the digits of its capture instant as a numeral,
/// ended by the parenthesis that opens the test's parameter list.
pub proof fn lemma_rendered_embeds_name(
    description: Seq<char>,
    time_text: Seq<char>,
    millis: nat,
    error: Seq<char>,
    full_path: Seq<char>,
    obj: Seq<char>,
    args: Seq<char>,
)
    ensures
        numeral_at(
            rendered_spec(description, time_text, millis, error, full_path, obj, args),
            name_digits_pos(description, time_text, error),
            dec_of(millis),
        ),
{
    lemma_dec_of_canonical(millis);
    reveal_strlit("() {\n");
    let t = rendered_spec(description, time_text, millis, error, full_path, obj, args);
    let p = name_digits_pos(description, time_text, error);
    assert(t.subrange(p, p + dec_of(millis).len() as int) =~= dec_of(millis));
    assert(t[p + dec_of(millis).len()] == '(');
}

/// Two captures that differ only in their millisecond instant render to
/// distinct blocks: neither can overwrite or shadow the other.
pub proof fn lemma_rendered_blocks_unique(
    description: Seq<char>,
    time_text: Seq<char>,
    m1: nat,
    m2: nat,
    error: Seq<char>,
    full_path: Seq<char>,
    obj: Seq<char>,
    args: Seq<char>,
)
    requires
        m1 != m2,
    ensures
        rendered_spec(description, time_text, m1, error, full_path, obj, args) != rendered_spec(
            description,
            time_text,
            m2,
            error,
            full_path,
            obj,
            args,
        ),
{
    lemma_rendered_embeds_name(description, time_text, m1, error, full_path, obj, args);
    lemma_rendered_embeds_name(description, time_text, m2, error, full_path, obj, args);
    let t1 = rendered_spec(description, time_text, m1, error, full_path, obj, args);
    let t2 = rendered_spec(description, time_text, m2, error, full_path, obj, args);
    if t1 == t2 {
        lemma_dec_of_canonical(m1);
        lemma_dec_of_canonical(m2);
        lemma_numeral_at_unique(
            t1,
            name_digits_pos(description, time_text, error),
            dec_of(m1),
            dec_of(m2),
        );
        lemma_dec_of_injective(m1, m2);
        assert(false);
    }
}

impl<'a, E: Executable> UnitTest<'a, E> {
    /// Renders this captured failure as the text of one self-contained
    /// test, deterministically: the same failure and capture time give the
    /// same text. Fails, without emitting anything, when the capture time
    /// cannot be written as a header timestamp or when a payload has no
    /// canonical encoding.
    pub fn render(&self) -> (r: Result<String, RenderError>)
        ensures
            (r matches Ok(text) ==> {
                &&& rfc2822_representable(self.time as int)
                &&& self.executable.encoding() matches Some(obj)
                    && E::arguments_encoding(*self.arguments) matches Some(args) && text@
                    == rendered_spec(
                    self.executable.description_spec(),
                    rfc2822_of(self.time as int),
                    self.time as nat,
                    E::error_text_spec(self.error),
                    E::full_path_spec(),
                    obj,
                    args,
                )
            }),
            (r == Err::<String, RenderError>(RenderError::TimestampOutOfRange) <==> !rfc2822_representable(
                self.time as int,
            )),
            (r == Err::<String, RenderError>(RenderError::OperationEncoding) <==> (
            rfc2822_representable(self.time as int) && self.executable.encoding() is None)),
            (r == Err::<String, RenderError>(RenderError::ArgumentsEncoding) <==> (
            rfc2822_representable(self.time as int) && self.executable.encoding() is Some
                && E::arguments_encoding(*self.arguments) is None)),
    {
        if self.time < 0 || self.time >= MILLIS_LIMIT {
            return Err(RenderError::TimestampOutOfRange);
        }
        let obj_json = match self.executable.encode() {
            Ok(s) => s,
            Err(_) => {
                return Err(RenderError::OperationEncoding);
            },
        };
        let arg_json = match E::encode_arguments(self.arguments) {
            Ok(s) => s,
            Err(_) => {
                return Err(RenderError::ArgumentsEncoding);
            },
        };
        let time_text = rfc2822_from_millis(self.time);
        let name_digits = u64_to_decimal(self.time as u64);
        let description = self.executable.description();
        let error = E::error_text(&self.error);
        let full_path = self.executable.full_path();
        let mut s = String::from_str("/// Automatically generated unit test for Executable\n\n");
        s.append("/// ");
        s.append(description.as_str());
        s.append("\n");
        s.append("/// generated at ");
        s.append(time_text.as_str());
        s.append("\n\n");
        s.append("/// exception was ");
        s.append(error.as_str());
        s.append("\n");
        s.append("#[test]\n");
        s.append("pub fn ");
        s.append("test_");
        s.append(name_digits.as_str());
        s.append("() {\n");
        s.append("\tuse exceptional::Executable;\n");
        s.append("\tlet obj_json = r#\"");
        s.append(obj_json.as_str());
        s.append("\"#;\n");
        s.append("\tlet mut obj: ");
        s.append(full_path);
        s.append(" = ::serde_json::from_str(obj_json).expect(\"Could not deserialize json\");\n");
        s.append("\t\n");
        s.append("\tlet arg_json = r#\"");
        s.append(arg_json.as_str());
        s.append("\"#;\n");
        s.append("\tlet args = ::serde_json::from_str(arg_json).expect(\"Could not deserialize json\");\n");
        s.append("\n");
        s.append("\tif let Err(e) = obj.execute(&args) {\n");
        s.append("\t\tprintln!(\"Could not execute {}\", obj.description());\n");
        s.append("\t\tprintln!(\"{:?}\", e);\n");
        s.append("\t\tpanic!();\n");
        s.append("\t}\n");
        s.append("}\n");
        proof {
            assert(s@ =~= rendered_spec(
                self.executable.description_spec(),
                rfc2822_of(self.time as int),
                self.time as nat,
                E::error_text_spec(self.error),
                E::full_path_spec(),
                obj_json@,
                arg_json@,
            ));
        }
        Ok(s)
    }
}

} // verus!
