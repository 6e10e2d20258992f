//! The renderer's error paths, driven by host-side operations whose state
//! or arguments refuse to encode; the library's own operations always
//! encode, so only a host implementation can reach these errors.
//!
//! The trait's specification functions are ghost-only: nothing calls them
//! at run time, so these host implementations supply diverging stubs.
use exceptional::DecodeError;
use exceptional::EncodeError;
use exceptional::Executable;
use exceptional::RenderError;
use exceptional::SomeImportantAction;
use exceptional::UnitTest;

struct OpaqueState;

impl Executable for OpaqueState {
    type Output = ();
    type Error = String;
    type Arguments = (u32, u32);

    fn full_path_spec() -> vstd::seq::Seq<char> {
        unreachable!()
    }

    fn description_spec(&self) -> vstd::seq::Seq<char> {
        unreachable!()
    }

    fn encoding(&self) -> Option<vstd::seq::Seq<char>> {
        unreachable!()
    }

    fn arguments_encoding(_args: (u32, u32)) -> Option<vstd::seq::Seq<char>> {
        unreachable!()
    }

    fn error_text_spec(_err: String) -> vstd::seq::Seq<char> {
        unreachable!()
    }

    fn invoke_ensures(_pre: Self, _post: Self, _args: (u32, u32), _out: Result<(), String>) -> bool {
        unreachable!()
    }

    fn full_path(&self) -> &'static str {
        "::OpaqueState"
    }

    fn description(&self) -> String {
        String::from("Holds state the codec cannot express.")
    }

    fn duplicate(&self) -> Self {
        OpaqueState
    }

    fn encode(&self) -> Result<String, EncodeError> {
        Err(EncodeError::Unencodable)
    }

    fn decode(_text: &str) -> Result<Self, DecodeError> {
        Err(DecodeError::Malformed)
    }

    fn encode_arguments(_args: &(u32, u32)) -> Result<String, EncodeError> {
        Ok(String::from("[\n  0,\n  0\n]"))
    }

    fn decode_arguments(_text: &str) -> Result<(u32, u32), DecodeError> {
        Err(DecodeError::Malformed)
    }

    fn error_text(err: &String) -> String {
        err.clone()
    }

    fn execute(&mut self, _args: &(u32, u32)) -> Result<(), String> {
        Err(String::from("always fails"))
    }
}

struct OpaqueArguments;

impl Executable for OpaqueArguments {
    type Output = ();
    type Error = String;
    type Arguments = (u32, u32);

    fn full_path_spec() -> vstd::seq::Seq<char> {
        unreachable!()
    }

    fn description_spec(&self) -> vstd::seq::Seq<char> {
        unreachable!()
    }

    fn encoding(&self) -> Option<vstd::seq::Seq<char>> {
        unreachable!()
    }

    fn arguments_encoding(_args: (u32, u32)) -> Option<vstd::seq::Seq<char>> {
        unreachable!()
    }

    fn error_text_spec(_err: String) -> vstd::seq::Seq<char> {
        unreachable!()
    }

    fn invoke_ensures(_pre: Self, _post: Self, _args: (u32, u32), _out: Result<(), String>) -> bool {
        unreachable!()
    }

    fn full_path(&self) -> &'static str {
        "::OpaqueArguments"
    }

    fn description(&self) -> String {
        String::from("Takes arguments the codec cannot express.")
    }

    fn duplicate(&self) -> Self {
        OpaqueArguments
    }

    fn encode(&self) -> Result<String, EncodeError> {
        Ok(String::from("{}"))
    }

    fn decode(_text: &str) -> Result<Self, DecodeError> {
        Err(DecodeError::Malformed)
    }

    fn encode_arguments(_args: &(u32, u32)) -> Result<String, EncodeError> {
        Err(EncodeError::Unencodable)
    }

    fn decode_arguments(_text: &str) -> Result<(u32, u32), DecodeError> {
        Err(DecodeError::Malformed)
    }

    fn error_text(err: &String) -> String {
        err.clone()
    }

    fn execute(&mut self, _args: &(u32, u32)) -> Result<(), String> {
        Err(String::from("always fails"))
    }
}

#[test]
fn encoding_failure_is_reported() {
    assert_eq!(OpaqueState.encode().unwrap_err(), EncodeError::Unencodable);
}

#[test]
fn render_reports_an_unencodable_snapshot() {
    let args = (0u32, 0u32);
    let unit_test = UnitTest {
        error: String::from("always fails"),
        arguments: &args,
        executable: OpaqueState,
        time: 0,
    };
    assert_eq!(unit_test.render().unwrap_err(), RenderError::OperationEncoding);
}

#[test]
fn render_reports_unencodable_arguments() {
    let args = (0u32, 0u32);
    let unit_test = UnitTest {
        error: String::from("always fails"),
        arguments: &args,
        executable: OpaqueArguments,
        time: 0,
    };
    assert_eq!(unit_test.render().unwrap_err(), RenderError::ArgumentsEncoding);
}

#[test]
fn decode_failure_is_reported() {
    assert_eq!(
        SomeImportantAction::decode("garbage").unwrap_err(),
        DecodeError::Malformed
    );
    assert_eq!(
        SomeImportantAction::decode_arguments("garbage").unwrap_err(),
        DecodeError::Malformed
    );
}
