use lib::invariant_report::{parse, Status};

#[test]
fn parses_a_well_formed_report() {
    let text = "\
MutexExclusion|violated|At most one process may be in Critical at a time.
NoDeadlock|holds|Some process can always eventually make progress.
";
    let result = parse(text).unwrap();
    assert_eq!(result.len(), 2);
    assert_eq!(result[0].name, "MutexExclusion");
    assert_eq!(result[0].status, Status::Violated);
    assert_eq!(result[1].status, Status::Holds);
}

#[test]
fn skips_comments_and_blank_lines() {
    let text = "\
# a comment
MutexExclusion|violated|desc

NoDeadlock|holds|desc
";
    assert_eq!(parse(text).unwrap().len(), 2);
}

#[test]
fn parses_unknown_status() {
    let result = parse("SomeInvariant|unknown|Not fully explored.").unwrap();
    assert_eq!(result[0].status, Status::Unknown);
}

#[test]
fn rejects_an_unrecognized_status() {
    let err = parse("Foo|maybe|desc").unwrap_err();
    assert!(err.contains("line 1"));
    assert!(err.contains("maybe"));
}

#[test]
fn rejects_a_line_missing_fields() {
    let err = parse("Foo|holds").unwrap_err();
    assert!(err.contains("line 1"));
}

#[test]
fn rejects_an_empty_name() {
    let err = parse("|holds|desc").unwrap_err();
    assert!(err.contains("empty invariant name"));
}

#[test]
fn description_may_itself_contain_pipe_characters() {
    let result = parse("Foo|holds|a | b | c").unwrap();
    assert_eq!(result[0].description, "a | b | c");
}

#[test]
fn empty_input_is_an_empty_list_not_an_error() {
    assert!(parse("").unwrap().is_empty());
    assert!(parse("# only a comment\n").unwrap().is_empty());
}

#[test]
fn error_messages_name_the_line_and_quote_it() {
    let err = parse("A|holds|x\n\n  B|sometimes|y").unwrap_err();
    assert_eq!(
        err,
        "line 3: unknown status \"sometimes\" (expected \"holds\", \"violated\", or \"unknown\") in \"  B|sometimes|y\""
    );
    assert_eq!(parse("Foo|maybe|desc").unwrap_err(), "line 1: unknown status \"maybe\" (expected \"holds\", \"violated\", or \"unknown\") in \"Foo|maybe|desc\"");
    assert_eq!(parse("# c\n |holds|d ").unwrap_err(), "line 2: empty invariant name in \" |holds|d \"");
    let err = parse("ok|holds|fine\nbroken line\r\n").unwrap_err();
    assert_eq!(err, "line 2: expected \"name|status|description\", got \"broken line\"");
    assert_eq!(parse("x\n|holds|d").unwrap_err(), "line 1: expected \"name|status|description\", got \"x\"");
}

#[test]
fn fields_are_trimmed_only_at_the_line_ends() {
    let result = parse("   Inv |holds| desc  \r\n").unwrap();
    assert_eq!(result[0].name, "Inv ");
    assert_eq!(result[0].status, Status::Holds);
    assert_eq!(result[0].description, " desc");
}
