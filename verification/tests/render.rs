//! The test renderer: the exact generated text, name uniqueness across
//! capture instants, and the error paths.
use exceptional::execute;
use exceptional::Accumulator;
use exceptional::RenderError;
use exceptional::SomeImportantAction;
use exceptional::UnitTest;

fn captured_action(time: i64) -> (SomeImportantAction, String, i64) {
    (SomeImportantAction { var_1: 0, var_2: 0 }, String::from("Whoopsie"), time)
}

#[test]
fn render_produces_the_exact_test_text() {
    let args = (2u32, 0u32);
    let (op, error, time) = captured_action(1539761233543);
    let unit_test = UnitTest { error, arguments: &args, executable: op, time };
    let text = unit_test.render().unwrap();
    let rfc = chrono::DateTime::<chrono::Utc>::from_timestamp_millis(1539761233543)
        .unwrap()
        .to_rfc2822();
    assert_eq!(rfc, "Wed, 17 Oct 2018 07:27:13 +0000");
    let mut expected = String::new();
    expected.push_str("/// Automatically generated unit test for Executable\n\n");
    expected.push_str("/// Executes some very important action!\n");
    expected.push_str("/// generated at ");
    expected.push_str(&rfc);
    expected.push_str("\n\n");
    expected.push_str("/// exception was \"Whoopsie\"\n");
    expected.push_str("#[test]\n");
    expected.push_str("pub fn test_1539761233543() {\n");
    expected.push_str("\tuse exceptional::Executable;\n");
    expected.push_str("\tlet obj_json = r#\"{\n  \"var_1\": 0,\n  \"var_2\": 0\n}\"#;\n");
    expected.push_str("\tlet mut obj: ::SomeImportantAction = ::serde_json::from_str(obj_json)");
    expected.push_str(".expect(\"Could not deserialize json\");\n");
    expected.push_str("\t\n");
    expected.push_str("\tlet arg_json = r#\"[\n  2,\n  0\n]\"#;\n");
    expected.push_str("\tlet args = ::serde_json::from_str(arg_json)");
    expected.push_str(".expect(\"Could not deserialize json\");\n");
    expected.push_str("\n");
    expected.push_str("\tif let Err(e) = obj.execute(&args) {\n");
    expected.push_str("\t\tprintln!(\"Could not execute {}\", obj.description());\n");
    expected.push_str("\t\tprintln!(\"{:?}\", e);\n");
    expected.push_str("\t\tpanic!();\n");
    expected.push_str("\t}\n");
    expected.push_str("}\n");
    assert_eq!(text, expected);
}

#[test]
fn render_embeds_the_failing_payloads() {
    let args = (3u32, 0u32);
    let (op, error, time) = captured_action(1539761233543);
    let unit_test = UnitTest { error, arguments: &args, executable: op, time };
    let text = unit_test.render().unwrap();
    assert!(text.contains("{\n  \"var_1\": 0,\n  \"var_2\": 0\n}"));
    assert!(text.contains("[\n  3,\n  0\n]"));
    assert!(text.contains("/// exception was \"Whoopsie\"\n"));
}

#[test]
fn distinct_timestamps_give_distinct_names() {
    let args = (3u32, 0u32);
    let (op1, error1, time1) = captured_action(1539761233543);
    let first = UnitTest { error: error1, arguments: &args, executable: op1, time: time1 }
        .render()
        .unwrap();
    let (op2, error2, _) = captured_action(0);
    let second = UnitTest { error: error2, arguments: &args, executable: op2, time: 1539761233544 }
        .render()
        .unwrap();
    assert_ne!(first, second);
    assert!(first.contains("pub fn test_1539761233543() {"));
    assert!(second.contains("pub fn test_1539761233544() {"));
    let appended = format!("{}{}", first, second);
    assert!(appended.starts_with(&first));
    assert!(appended.ends_with(&second));
    assert!(appended.contains("pub fn test_1539761233543() {"));
    assert!(appended.contains("pub fn test_1539761233544() {"));
}

#[test]
fn error_text_is_escaped_like_debug_formatting() {
    let args = (3u32, 0u32);
    let error = String::from("line\nbreak \"quoted\" back\\slash\ttab\rret");
    let expected_line = format!("/// exception was {:?}\n", error);
    let unit_test = UnitTest {
        error,
        arguments: &args,
        executable: SomeImportantAction { var_1: 0, var_2: 0 },
        time: 0,
    };
    let text = unit_test.render().unwrap();
    assert!(text.contains(&expected_line));
    assert!(text.contains("/// exception was \"line\\nbreak \\\"quoted\\\" back\\\\slash\\ttab\\rret\"\n"));
}

#[test]
fn capture_then_render_end_to_end() {
    let mut op = SomeImportantAction { var_1: 1, var_2: 2 };
    let args = (3u32, 9u32);
    match execute(&mut op, &args) {
        Ok(_) => panic!(),
        Err(unit_test) => {
            assert!(unit_test.time >= 0);
            let text = unit_test.render().unwrap();
            assert!(text.contains("{\n  \"var_1\": 1,\n  \"var_2\": 2\n}"));
            assert!(text.contains("[\n  3,\n  9\n]"));
            assert!(text.contains("/// exception was \"Whoopsie\"\n"));
            assert!(text.contains(&format!("pub fn test_{}() {{", unit_test.time)));
        },
    }
}

#[test]
fn render_rejects_a_time_before_the_epoch() {
    let args = (3u32, 0u32);
    let (op, error, _) = captured_action(0);
    let unit_test = UnitTest { error, arguments: &args, executable: op, time: -1 };
    assert_eq!(unit_test.render().unwrap_err(), RenderError::TimestampOutOfRange);
}

#[test]
fn render_rejects_a_time_past_year_9999() {
    let args = (3u32, 0u32);
    let (op, error, _) = captured_action(0);
    let unit_test = UnitTest { error, arguments: &args, executable: op, time: 253402300800000 };
    assert_eq!(unit_test.render().unwrap_err(), RenderError::TimestampOutOfRange);
}

#[test]
fn render_accepts_the_last_representable_instant() {
    let args = (3u32, 0u32);
    let (op, error, _) = captured_action(0);
    let unit_test = UnitTest { error, arguments: &args, executable: op, time: 253402300799999 };
    let text = unit_test.render().unwrap();
    assert!(text.contains("9999"));
    assert!(text.contains("pub fn test_253402300799999() {"));
}

#[test]
fn render_covers_the_accumulator_too() {
    let args = (3u32, 0u32);
    let unit_test = UnitTest {
        error: String::from("no recipients"),
        arguments: &args,
        executable: Accumulator { total: 8 },
        time: 1539761233543,
    };
    let text = unit_test.render().unwrap();
    assert!(text.contains("{\n  \"total\": 8\n}"));
    assert!(text.contains("::Accumulator = ::serde_json::from_str"));
    assert!(text.contains("/// Accumulates deposits and divides the total among recipients.\n"));
    assert!(text.contains("/// exception was \"no recipients\"\n"));
}
