//! Recording targets as the PipeWire command line tools list them.

use crate::text::{
    chars_of, contains, contains_text, pieces_of, split_on, string_of, texts_of, trim, trimmed,
};
use vstd::prelude::*;
use vstd::string::StringExecFns;

verus! {

/// A recording target.
#[derive(Clone, Debug)]
pub struct Source {
    /// Name of the node.
    pub name: String,
    /// Description of the node, where it has one.
    pub description: Option<String>,
}

/// The texts of a recording target.
pub struct SourceText {
    /// Name of the node.
    pub name: Seq<char>,
    /// Description of the node, where it has one.
    pub description: Option<Seq<char>>,
}

impl View for Source {
    type V = SourceText;

    open spec fn view(&self) -> SourceText {
        SourceText {
            name: self.name@,
            description: match self.description {
                Some(d) => Some(d@),
                None => None,
            },
        }
    }
}

/// The texts of a list of targets.
pub open spec fn source_texts(v: Seq<Source>) -> Seq<SourceText> {
    v.map_values(|s: Source| s@)
}

/// The text between the first and the second double quote of `line`,
/// where it has a first one.
pub open spec fn quoted_value(line: Seq<char>) -> Option<Seq<char>> {
    let pieces = pieces_of(line, '"');
    if pieces.len() >= 2 {
        Some(pieces[1])
    } else {
        None
    }
}

fn quoted_chars(line: &Vec<char>) -> (r: Option<Vec<char>>)
    ensures
        match r {
            Some(v) => quoted_value(line@) == Some(v@),
            None => quoted_value(line@) is None,
        },
{
    let pieces = split_on(line, '"');
    if pieces.len() >= 2 {
        assert(texts_of(pieces@)[1] == pieces@[1]@);
        Some(pieces[1].clone())
    } else {
        assert(texts_of(pieces@).len() == pieces@.len());
        None
    }
}

/// Returns the text between the first and the second double quote of
/// `line`; nothing where the line has no double quote.
pub fn extract_quoted_value(line: &str) -> (r: Option<String>)
    ensures
        match r {
            Some(v) => quoted_value(line@) == Some(v@),
            None => quoted_value(line@) is None,
        },
{
    let chars = chars_of(line);
    match quoted_chars(&chars) {
        Some(v) => Some(string_of(&v)),
        None => None,
    }
}

/// What the reader of a listing knows between two lines: the targets
/// found, the object being read, and whether that object is a source.
pub struct Listing {
    /// Targets found so far.
    pub sources: Seq<SourceText>,
    /// The object being read, once its name is known.
    pub current: Option<SourceText>,
    /// Whether the object being read is a source.
    pub is_source: bool,
}

/// The listing with the object being read put among the targets, where it
/// is a source.
pub open spec fn flushed(state: Listing) -> Seq<SourceText> {
    match state.current {
        Some(obj) => if state.is_source {
            state.sources.push(obj)
        } else {
            state.sources
        },
        None => state.sources,
    }
}

/// The line starts a new object: it holds `id` and one of `type` and
/// `Node`.
pub open spec fn starts_object(line: Seq<char>) -> bool {
    contains_text(line, "id"@) && (contains_text(line, "type"@) || contains_text(line, "Node"@))
}

/// The line gives a description: it holds `node.description` or
/// `node.nick`.
pub open spec fn gives_description(line: Seq<char>) -> bool {
    contains_text(line, "node.description"@) || contains_text(line, "node.nick"@)
}

/// The line gives the class of a source: it holds `Source`, `source` or
/// `Input`.
pub open spec fn names_source(line: Seq<char>) -> bool {
    contains_text(line, "Source"@) || contains_text(line, "source"@) || contains_text(
        line,
        "Input"@,
    )
}

/// The listing after one more line. A line that starts an object closes
/// the one before; a line with `node.name` opens an object of the quoted
/// name; a description line sets the description of the open object; a
/// line with `media.class` marks the object as a source where it names
/// one. The first of these that applies decides.
pub open spec fn after_line(state: Listing, raw: Seq<char>) -> Listing {
    let line = trimmed(raw);
    if starts_object(line) {
        Listing { sources: flushed(state), current: None, is_source: false }
    } else if contains_text(line, "node.name"@) {
        match quoted_value(line) {
            Some(name) => Listing {
                sources: state.sources,
                current: Some(SourceText { name, description: None }),
                is_source: state.is_source,
            },
            None => state,
        }
    } else if gives_description(line) {
        match (quoted_value(line), state.current) {
            (Some(text), Some(obj)) => Listing {
                sources: state.sources,
                current: Some(SourceText { name: obj.name, description: Some(text) }),
                is_source: state.is_source,
            },
            _ => state,
        }
    } else if contains_text(line, "media.class"@) && names_source(line) {
        Listing { sources: state.sources, current: state.current, is_source: true }
    } else {
        state
    }
}

/// The listing after the lines `lines[..upto]`.
pub open spec fn after_lines(lines: Seq<Seq<char>>, upto: int) -> Listing
    decreases upto,
{
    if upto <= 0 {
        Listing { sources: Seq::empty(), current: None, is_source: false }
    } else {
        after_line(after_lines(lines, upto - 1), lines[upto - 1])
    }
}

/// The targets that a listing of objects names: the sources among its
/// objects, in their order.
pub open spec fn listed_sources(output: Seq<char>) -> Seq<SourceText> {
    let lines = pieces_of(output, '\n');
    flushed(after_lines(lines, lines.len() as int))
}

/// What the reader holds as the object being read.
pub open spec fn current_text(current: Option<Source>) -> Option<SourceText> {
    match current {
        Some(s) => Some(s@),
        None => None,
    }
}

/// Reads the sources from the output of `pw-cli list-objects`.
pub fn parse_pw_cli_output(output: &str) -> (r: Vec<Source>)
    ensures
        source_texts(r@) == listed_sources(output@),
{
    let text = chars_of(output);
    let lines = split_on(&text, '\n');
    let id = chars_of("id");
    let type_ = chars_of("type");
    let node = chars_of("Node");
    let node_name = chars_of("node.name");
    let node_description = chars_of("node.description");
    let node_nick = chars_of("node.nick");
    let media_class = chars_of("media.class");
    let source_upper = chars_of("Source");
    let source_lower = chars_of("source");
    let input = chars_of("Input");
    let mut sources: Vec<Source> = Vec::new();
    let mut current: Option<Source> = None;
    let mut is_source: bool = false;
    let ghost all = pieces_of(output@, '\n');
    assert(source_texts(sources@) =~= Seq::<SourceText>::empty());
    let mut i: usize = 0;
    while i < lines.len()
        invariant
            i <= lines.len(),
            texts_of(lines@) == all,
            id@ == "id"@,
            type_@ == "type"@,
            node@ == "Node"@,
            node_name@ == "node.name"@,
            node_description@ == "node.description"@,
            node_nick@ == "node.nick"@,
            media_class@ == "media.class"@,
            source_upper@ == "Source"@,
            source_lower@ == "source"@,
            input@ == "Input"@,
            after_lines(all, i as int) == (Listing {
                sources: source_texts(sources@),
                current: current_text(current),
                is_source,
            }),
        decreases lines.len() - i,
    {
        assert(texts_of(lines@)[i as int] == lines@[i as int]@);
        let line = trim(&lines[i]);
        let ghost found = source_texts(sources@);
        if contains(&line, &id) && (contains(&line, &type_) || contains(&line, &node)) {
            let mut taken: Option<Source> = None;
            std::mem::swap(&mut taken, &mut current);
            match taken {
                Some(obj) => {
                    if is_source {
                        sources.push(obj);
                        assert(source_texts(sources@) =~= found.push(obj@));
                    }
                },
                None => {},
            }
            is_source = false;
        } else if contains(&line, &node_name) {
            match quoted_chars(&line) {
                Some(name) => {
                    current = Some(Source { name: string_of(&name), description: None });
                },
                None => {},
            }
        } else if contains(&line, &node_description) || contains(&line, &node_nick) {
            match quoted_chars(&line) {
                Some(text) => {
                    let mut taken: Option<Source> = None;
                    std::mem::swap(&mut taken, &mut current);
                    match taken {
                        Some(obj) => {
                            current = Some(
                                Source { name: obj.name, description: Some(string_of(&text)) },
                            );
                        },
                        None => {},
                    }
                },
                None => {},
            }
        } else if contains(&line, &media_class) {
            if contains(&line, &source_upper) || contains(&line, &source_lower) || contains(
                &line,
                &input,
            ) {
                is_source = true;
            }
        }
        i += 1;
    }
    let ghost found = source_texts(sources@);
    match current {
        Some(obj) => {
            if is_source {
                sources.push(obj);
                assert(source_texts(sources@) =~= found.push(obj@));
            }
        },
        None => {},
    }
    sources
}

/// Some target of `available` has the name `name`.
pub open spec fn is_available(available: Seq<Source>, name: Seq<char>) -> bool {
    exists|i: int| 0 <= i < available.len() && (#[trigger] available[i]).name@ == name
}

/// Checks the target that the user asked for, or picks one.
///
/// Returns the target and an exit code: 0 with a target, 1 without. A
/// target asked for is accepted where it is available, and also where no
/// target is known at all. Without a wish the first available target is
/// picked; there is none where nothing is available.
pub fn validate_and_select_target(specified_target: Option<&str>, available: &Vec<Source>) -> (r: (
    Option<String>,
    i32,
))
    ensures
        match specified_target {
            Some(wish) => if available@.len() > 0 && !is_available(available@, wish@) {
                r.0 is None && r.1 == 1
            } else {
                r.0 matches Some(t) && t@ == wish@ && r.1 == 0
            },
            None => if available@.len() == 0 {
                r.0 is None && r.1 == 1
            } else {
                r.0 matches Some(t) && t@ == available@[0].name@ && r.1 == 0
            },
        },
{
    match specified_target {
        Some(wish) => {
            let mut known: bool = false;
            let mut i: usize = 0;
            while i < available.len()
                invariant
                    i <= available.len(),
                    known == (exists|j: int|
                        0 <= j < i && (#[trigger] available@[j]).name@ == wish@),
                decreases available.len() - i,
            {
                if crate::text::same_text(available[i].name.as_str(), wish) {
                    known = true;
                }
                i += 1;
            }
            if available.len() > 0 && !known {
                (None, 1)
            } else {
                (Some(String::from_str(wish)), 0)
            }
        },
        None => {
            if available.len() == 0 {
                (None, 1)
            } else {
                (Some(available[0].name.clone()), 0)
            }
        },
    }
}

} // verus!
