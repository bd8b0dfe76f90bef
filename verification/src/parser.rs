//! Errors of loading html documents into nodes.
use vstd::prelude::*;
use vstd::string::*;

verus! {

/// An error of the standard library's I/O, carried through as it is.
#[verifier::external_type_specification]
#[verifier::external_body]
pub struct ExIoError(std::io::Error);

/// Why a document could not be loaded.
#[derive(Debug)]
pub enum LoadError {
    /// The document could not be read.
    Io(std::io::Error),
    /// The html parser reported these errors.
    Parse(Vec<String>),
    /// The document holds no element and no text.
    Empty,
}

/// Prefix of the message of an I/O error.
pub const IO_PREFIX: &'static str = "IO error: ";

/// Message of a parse error without details.
pub const PARSE_UNKNOWN: &'static str = "Error during parsing step.";

/// Prefix of the message of a single parse error.
pub const PARSE_ONE_PREFIX: &'static str = "Cannot parse: ";

/// Head of the message of several parse errors.
pub const PARSE_MANY_HEAD: &'static str = "While parsing, the following errors occured:";

/// Message of an empty document.
pub const EMPTY_MESSAGE: &'static str = "Document was emtpy";

/// Each error, preceded by a tab, one after the other.
pub open spec fn tabbed(errs: Seq<Seq<char>>) -> Seq<char>
    decreases errs.len(),
{
    if errs.len() == 0 {
        Seq::empty()
    } else {
        tabbed(errs.drop_last()) + seq!['\t'] + errs.last()
    }
}

/// The message of a parse error with the given details.
pub open spec fn parse_message(errs: Seq<Seq<char>>) -> Seq<char> {
    if errs.len() == 0 {
        PARSE_UNKNOWN@
    } else if errs.len() == 1 {
        PARSE_ONE_PREFIX@ + errs[0]
    } else {
        PARSE_MANY_HEAD@ + tabbed(errs)
    }
}

/// The message of an I/O error: the prefix, then what the error displays.
pub open spec fn io_message(e: &std::io::Error, msg: Seq<char>) -> bool {
    exists|t: String| #[trigger] to_string_from_display_ensures(e, t) && msg == IO_PREFIX@ + t@
}

impl LoadError {
    /// A human readable description of the error.
    pub fn message(&self) -> (res: String)
        ensures
            match self {
                LoadError::Io(e) => io_message(e, res@),
                LoadError::Parse(errs) => res@ == parse_message(errs@.map_values(|s: String| s@)),
                LoadError::Empty => res@ == EMPTY_MESSAGE@,
            },
    {
        match self {
            LoadError::Io(e) => {
                let t = e.to_string();
                let mut out = String::from_str(IO_PREFIX);
                out.append(t.as_str());
                out
            },
            LoadError::Parse(errs) => {
                let ghost v = errs@.map_values(|s: String| s@);
                if errs.len() == 0 {
                    String::from_str(PARSE_UNKNOWN)
                } else if errs.len() == 1 {
                    let mut out = String::from_str(PARSE_ONE_PREFIX);
                    out.append(errs[0].as_str());
                    out
                } else {
                    let mut out = String::from_str(PARSE_MANY_HEAD);
                    let mut i: usize = 0;
                    while i < errs.len()
                        invariant
                            0 <= i <= errs.len(),
                            v == errs@.map_values(|s: String| s@),
                            out@ == PARSE_MANY_HEAD@ + tabbed(v.take(i as int)),
                        decreases errs.len() - i,
                    {
                        out.append("\t");
                        out.append(errs[i].as_str());
                        proof {
                            reveal_strlit("\t");
                            assert(v.take(i + 1).drop_last() =~= v.take(i as int));
                        }
                        i = i + 1;
                    }
                    assert(v.take(i as int) =~= v);
                    out
                }
            },
            LoadError::Empty => String::from_str(EMPTY_MESSAGE),
        }
    }
}

} // verus!
