use greenhorn::parser::LoadError;
use greenhorn::templating;

#[test]
fn parse_error_messages() {
    assert_eq!(LoadError::Parse(vec![]).message(), "Error during parsing step.");
    assert_eq!(LoadError::Parse(vec!["bad tag".to_string()]).message(), "Cannot parse: bad tag");
    assert_eq!(
        LoadError::Parse(vec!["a".to_string(), "b".to_string()]).message(),
        "While parsing, the following errors occured:\ta\tb"
    );
    assert_eq!(LoadError::Empty.message(), "Document was emtpy");
}

#[test]
fn io_error_message() {
    let err = std::io::Error::new(std::io::ErrorKind::NotFound, "no such file");
    assert_eq!(LoadError::Io(err).message(), "IO error: no such file");
    assert!(matches!(templating::LoadError::Empty, templating::LoadError::Empty));
}
