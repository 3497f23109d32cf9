use spr::error::{add_error, Error, Result, ResultExt, SourceChain, Terminator};

#[derive(Debug)]
struct InnerError(String);

impl std::fmt::Display for InnerError {
    fn fmt(&self, f: &mut std::fmt::Formatter<'_>) -> std::fmt::Result {
        f.write_str(&self.0)
    }
}

impl std::error::Error for InnerError {}

#[derive(Debug)]
struct OuterError {
    msg: String,
    source: InnerError,
}

impl std::fmt::Display for OuterError {
    fn fmt(&self, f: &mut std::fmt::Formatter<'_>) -> std::fmt::Result {
        f.write_str(&self.msg)
    }
}

impl std::error::Error for OuterError {
    fn source(&self) -> Option<&(dyn std::error::Error + 'static)> {
        Some(&self.source)
    }
}

fn source_chain(error: &dyn std::error::Error) -> SourceChain {
    let mut sources = Vec::new();
    let mut source = error.source();
    while let Some(s) = source {
        sources.push(s.to_string());
        source = s.source();
    }
    SourceChain { text: error.to_string(), sources }
}

#[test]
fn test_from_error_includes_source_chain() {
    let outer = OuterError {
        msg: "GitHub".into(),
        source: InnerError("PR is not mergeable".into()),
    };
    let error: Error = source_chain(&outer).into();
    assert_eq!(error.messages()[0], "GitHub: PR is not mergeable");
}

#[test]
fn test_from_error_without_source() {
    let inner = InnerError("simple error".into());
    let error: Error = source_chain(&inner).into();
    assert_eq!(error.messages()[0], "simple error");
}

#[test]
fn test_context_appends_message() {
    let result: Result<()> = Err(Error::new("original"));
    let result = result.context("added context".into());
    let err = result.unwrap_err();
    assert_eq!(err.messages(), &["original", "added context"]);
}

#[test]
fn test_reword_replaces_last_message() {
    let result: Result<()> = Err(Error::new("original"));
    let result = result.reword("reworded".into());
    let err = result.unwrap_err();
    assert_eq!(err.messages(), &["reworded"]);
}

#[test]
fn error_shows_its_last_message() {
    let mut error = Error::new(String::from("first"));
    assert_eq!(error.to_text(), "first");
    error.push("second".into());
    assert_eq!(error.to_text(), "second");
    assert_eq!(error.clone().messages(), &["first", "second"]);
}

#[test]
fn empty_error_is_unknown() {
    let mut error = Error::empty();
    assert!(error.is_empty());
    assert_eq!(error.messages().len(), 0);
    assert_eq!(error.to_text(), "unknown error");
    error.push("now".into());
    assert!(!error.is_empty());
}

#[test]
fn success_takes_no_context() {
    let result: Result<u8> = Ok(7);
    let result = result.convert().context("a".into()).reword("b".into());
    assert_eq!(result.unwrap(), 7);
    let result: std::result::Result<u8, SourceChain> = Ok(7);
    assert_eq!(result.context("a".into()).unwrap(), 7);
}

#[test]
fn reword_of_an_empty_error_adds() {
    let result: Result<()> = Err(Error::empty());
    assert_eq!(result.reword("said".into()).unwrap_err().messages(), &["said"]);
}

#[test]
fn reword_takes_back_context() {
    let result: Result<()> = Err(Error::new("original"));
    let result = result.context("vague".into()).reword("exact".into());
    assert_eq!(result.unwrap_err().messages(), &["original", "exact"]);
}

fn failing() -> std::result::Result<(), SourceChain> {
    Err(SourceChain { text: "outer".into(), sources: vec!["middle".into(), "inner".into()] })
}

#[test]
fn other_errors_are_converted() {
    assert_eq!(failing().convert().unwrap_err().messages(), &["outer: middle: inner"]);
    assert_eq!(
        failing().context("more".into()).unwrap_err().messages(),
        &["outer: middle: inner", "more"]
    );
    assert_eq!(failing().reword("less".into()).unwrap_err().messages(), &["less"]);
}

#[test]
fn add_error_collects_every_message() {
    let mut result: Result<u8> = Ok(1);
    assert_eq!(add_error(&mut result, Ok::<u8, Error>(2)), Some(2));
    assert_eq!(*result.as_ref().unwrap(), 1);
    assert_eq!(add_error(&mut result, Err::<u8, Error>(Error::new("one"))), None);
    assert_eq!(add_error(&mut result, Ok::<u8, Error>(3)), Some(3));
    let other: Result<u8> = Err(Error::new("two"));
    assert_eq!(add_error(&mut result, other.context("three".into())), None);
    assert_eq!(result.unwrap_err().messages(), &["one", "two", "three"]);
}

#[test]
fn terminator_reports_newest_first() {
    let mut error = Error::new("cause");
    error.push("context".into());
    assert_eq!(Terminator::from(error).report(), "🛑 context\ncause\n");
    assert_eq!(Terminator::from(Error::empty()).report(), "🛑 ");
    let chain = SourceChain { text: "a".into(), sources: vec!["b".into()] };
    assert_eq!(Terminator::from(chain).report(), "🛑 a: b\n");
}
