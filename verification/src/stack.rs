//! Stack traces as the engine prints them: one line for each frame, of the
//! form `function@file:line:column`, with the function left out for
//! anonymous code.

use crate::text::{decimal_of, find_first, find_last, first_of, last_of, number_of, parse_number, push_number};
use sourcemap::SourceMap;
use vstd::prelude::*;
use vstd::string::{StrSliceExecFns, StringExecFns};

verus! {

/// A place in a source file. Lines and columns count from one; zero stands
/// for a line or column that is not known.
#[derive(Clone, Debug, PartialEq, Eq)]
pub struct Location {
    pub file: String,
    pub lineno: u32,
    pub column: u32,
}

/// One frame of a stack trace.
#[derive(Clone, Debug, PartialEq, Eq)]
pub struct StackRecord {
    pub function: Option<String>,
    pub location: Location,
}

/// A stack trace, innermost frame first.
#[derive(Clone, Debug)]
pub struct Stack {
    pub records: Vec<StackRecord>,
}

/// What a `Location` holds.
pub struct LocationView {
    pub file: Seq<char>,
    pub lineno: u32,
    pub column: u32,
}

/// What a `StackRecord` holds.
pub struct RecordView {
    pub function: Option<Seq<char>>,
    pub location: LocationView,
}

impl View for Location {
    type V = LocationView;

    open spec fn view(&self) -> LocationView {
        LocationView { file: self.file@, lineno: self.lineno, column: self.column }
    }
}

impl View for StackRecord {
    type V = RecordView;

    open spec fn view(&self) -> RecordView {
        RecordView {
            function: match self.function {
                Some(function) => Some(function@),
                None => None,
            },
            location: self.location@,
        }
    }
}

impl View for Stack {
    type V = Seq<RecordView>;

    open spec fn view(&self) -> Seq<RecordView> {
        self.records@.map_values(|record: StackRecord| record@)
    }
}

/// A line without the carriage return at its end, if it has one.
pub open spec fn chomped(line: Seq<char>) -> Seq<char> {
    if line.len() > 0 && line.last() == '\r' {
        line.drop_last()
    } else {
        line
    }
}

/// The lines of `text`. A line ends at a line feed, or at a carriage return
/// followed by a line feed, neither of which belongs to the line; the last
/// line may do without, and text that ends with a line ending has no empty
/// line behind it.
pub open spec fn lines_of(text: Seq<char>) -> Seq<Seq<char>>
    decreases text.len(),
{
    let end = first_of(text, '\n');
    if text.len() == 0 {
        Seq::empty()
    } else if 0 <= end < text.len() {
        seq![chomped(text.subrange(0, end))] + lines_of(text.subrange(end + 1, text.len() as int))
    } else {
        seq![text]
    }
}

/// The frame that `line` describes. The function is what stands before the
/// first `@`, and is absent if nothing does. Of what follows, the column is
/// the number behind the last colon, the line the number behind the colon
/// before that, and the file all that stands before it. A line that lacks
/// the `@`, either colon or either number describes no frame.
pub open spec fn record_of(line: Seq<char>) -> Option<RecordView> {
    let at = first_of(line, '@');
    let rest = line.subrange(at + 1, line.len() as int);
    let second = last_of(rest, ':');
    let head = rest.subrange(0, second);
    let first = last_of(head, ':');
    if !(0 <= at < line.len()) || second < 0 || first < 0 {
        None
    } else {
        match (
            number_of(head.subrange(first + 1, head.len() as int)),
            number_of(rest.subrange(second + 1, rest.len() as int)),
        ) {
            (Some(lineno), Some(column)) => Some(
                RecordView {
                    function: if at == 0 {
                        None
                    } else {
                        Some(line.subrange(0, at))
                    },
                    location: LocationView { file: head.subrange(0, first), lineno, column },
                },
            ),
            _ => None,
        }
    }
}

/// Whether every line of `text` describes a frame.
pub open spec fn is_stack_text(text: Seq<char>) -> bool {
    forall|i: int| 0 <= i < lines_of(text).len() ==> record_of(#[trigger] lines_of(text)[i]) is Some
}

/// The frames that the lines of `text` describe, in order.
pub open spec fn records_of(text: Seq<char>) -> Seq<RecordView> {
    lines_of(text).map_values(|line: Seq<char>| record_of(line)->0)
}

/// A frame as the engine prints it.
pub open spec fn record_text(record: RecordView) -> Seq<char> {
    (match record.function {
        Some(function) => function,
        None => Seq::empty(),
    }) + seq!['@'] + record.location.file + seq![':'] + decimal_of(record.location.lineno as nat) + seq![':']
        + decimal_of(record.location.column as nat)
}

/// The frames of a stack for display: each on a line of its own behind two
/// spaces, with no line ending behind the last.
pub open spec fn stack_text(records: Seq<RecordView>) -> Seq<char>
    decreases records.len(),
{
    if records.len() == 0 {
        Seq::empty()
    } else if records.len() == 1 {
        seq![' ', ' '] + record_text(records[0])
    } else {
        stack_text(records.drop_last()) + seq!['\n'] + seq![' ', ' '] + record_text(records.last())
    }
}

/// One mapping of a source map: a position in the generated file and the
/// position in the source that it came from. Lines and columns count from
/// zero.
pub struct Mapping {
    pub dst_line: u32,
    pub dst_col: u32,
    pub src_line: u32,
    pub src_col: u32,
}

impl Mapping {
    /// Whether the mapping starts at `line` and `column` of the generated
    /// file, or before.
    pub open spec fn starts_by(self, line: u32, column: u32) -> bool {
        self.dst_line < line || (self.dst_line == line && self.dst_col <= column)
    }
}

/// The mappings that a source map of the sourcemap crate holds: one for
/// each of its tokens, with the position at which the token starts in the
/// generated file and the position in the source that it stands for.
pub uninterp spec fn mappings(map: SourceMap) -> Seq<Mapping>;

/// Whether `found` is what a look-up of `line` and `column` may give: the
/// source position of a mapping that starts there or before, and no earlier
/// than any other mapping that does; or nothing, where no mapping starts
/// there or before.
pub open spec fn looked_up(held: Seq<Mapping>, line: u32, column: u32, found: Option<(u32, u32)>) -> bool {
    match found {
        Some((src_line, src_col)) => exists|i: int|
            0 <= i < held.len() && #[trigger] held[i].starts_by(line, column) && held[i].src_line == src_line
                && held[i].src_col == src_col && forall|j: int|
                0 <= j < held.len() && #[trigger] held[j].starts_by(line, column) ==> held[i].starts_by(
                    held[j].dst_line,
                    held[j].dst_col,
                ) ==> held[j].dst_line == held[i].dst_line && held[j].dst_col == held[i].dst_col,
        None => forall|i: int| 0 <= i < held.len() ==> !(#[trigger] held[i].starts_by(line, column)),
    }
}

/// `SourceMap` of the sourcemap crate. Nothing is known of what is inside
/// one but through `mappings`.
#[verifier::external_type_specification]
#[verifier::external_body]
pub struct ExSourceMap(SourceMap);

/// `SourceMap::lookup_token` of the sourcemap crate, followed by
/// `Token::get_src_line` and `Token::get_src_col` on the token found, which
/// hand out the token's source position as it is held. The crate searches
/// its tokens, sorted by where they start in the generated file, for the
/// last one that starts at the given position or before; it finds none only
/// where every token starts later. Of several tokens that start at one
/// position it is not said here which is found. The contract is believed,
/// not proved.
#[verifier::external_body]
fn lookup(map: &SourceMap, line: u32, column: u32) -> (found: Option<(u32, u32)>)
    ensures
        looked_up(mappings(*map), line, column, found),
{
    match map.lookup_token(line, column) {
        Some(token) => Some((token.get_src_line(), token.get_src_col())),
        None => None,
    }
}

impl LocationView {
    /// The location moved to the source position `src_line`, `src_col`,
    /// which count from zero.
    pub open spec fn mapped_to(self, src_line: u32, src_col: u32) -> LocationView {
        LocationView { lineno: (src_line + 1) as u32, column: (src_col + 1) as u32, ..self }
    }

    /// Whether `after` is this location seen through a source map that
    /// holds `held`. A location without a line or a column stays as it is,
    /// and so does one for which the map finds nothing, or a position
    /// beyond the last line or column that can be counted from one.
    /// Otherwise the location moves to what the map found.
    pub open spec fn maps_to(self, held: Seq<Mapping>, after: LocationView) -> bool {
        if self.lineno == 0 || self.column == 0 {
            after == self
        } else {
            exists|found: Option<(u32, u32)>| #[trigger]
                looked_up(held, (self.lineno - 1) as u32, (self.column - 1) as u32, found) && after == (
                match found {
                    Some((src_line, src_col)) if src_line < u32::MAX && src_col < u32::MAX => self.mapped_to(
                        src_line,
                        src_col,
                    ),
                    _ => self,
                })
        }
    }
}

impl Location {
    /// Moves the location to a position in the source, given as a source
    /// map gives it: counted from zero.
    pub fn apply_mapping(&mut self, src_line: u32, src_col: u32)
        requires
            src_line < u32::MAX,
            src_col < u32::MAX,
        ensures
            final(self)@ == old(self)@.mapped_to(src_line, src_col),
    {
        self.lineno = src_line + 1;
        self.column = src_col + 1;
    }

    /// Moves the location from the generated file to the source it came
    /// from, as far as `sourcemap` knows it.
    pub fn transform_with_sourcemap(&mut self, sourcemap: &SourceMap)
        ensures
            old(self)@.maps_to(mappings(*sourcemap), final(self)@),
    {
        if self.lineno != 0 && self.column != 0 {
            let found = lookup(sourcemap, self.lineno - 1, self.column - 1);
            match found {
                Some((src_line, src_col)) => {
                    if src_line < u32::MAX && src_col < u32::MAX {
                        self.apply_mapping(src_line, src_col);
                    }
                },
                None => {},
            }
        }
    }
}

impl StackRecord {
    /// Moves the frame's location from the generated file to the source.
    pub fn transform_with_sourcemap(&mut self, sourcemap: &SourceMap)
        ensures
            final(self)@.function == old(self)@.function,
            old(self)@.location.maps_to(mappings(*sourcemap), final(self)@.location),
    {
        self.location.transform_with_sourcemap(sourcemap);
    }

    /// The frame as the engine prints it.
    pub fn to_string(&self) -> (text: String)
        ensures
            text@ == record_text(self@),
    {
        let mut text = String::new();
        match &self.function {
            Some(function) => {
                text.append(function.as_str());
            },
            None => {},
        }
        proof {
            reveal_strlit("@");
            reveal_strlit(":");
            assert("@"@ =~= seq!['@']);
            assert(":"@ =~= seq![':']);
        }
        text.append("@");
        text.append(self.location.file.as_str());
        text.append(":");
        push_number(&mut text, self.location.lineno);
        text.append(":");
        push_number(&mut text, self.location.column);
        proof {
            assert(text@ =~= record_text(self@));
        }
        text
    }
}

/// Reads the frame that `line` describes, if it describes one.
pub fn parse_record(line: &str) -> (record: Option<StackRecord>)
    ensures
        match record {
            Some(record) => record_of(line@) == Some(record@),
            None => record_of(line@) is None,
        },
{
    let len = line.unicode_len();
    let at = find_first(line, '@');
    if at >= len {
        return None;
    }
    let rest = line.substring_char(at + 1, len);
    let second = match find_last(rest, ':') {
        Some(second) => second,
        None => {
            return None;
        },
    };
    let head = rest.substring_char(0, second);
    let first = match find_last(head, ':') {
        Some(first) => first,
        None => {
            return None;
        },
    };
    let lineno = match parse_number(head.substring_char(first + 1, second)) {
        Some(lineno) => lineno,
        None => {
            return None;
        },
    };
    let column = match parse_number(rest.substring_char(second + 1, len - at - 1)) {
        Some(column) => column,
        None => {
            return None;
        },
    };
    let function = if at == 0 {
        None
    } else {
        Some(line.substring_char(0, at).to_owned())
    };
    let file = head.substring_char(0, first).to_owned();
    Some(StackRecord { function, location: Location { file, lineno, column } })
}

impl Stack {
    /// Reads a stack trace, if every line of `string` describes a frame.
    pub fn parse(string: &str) -> (stack: Option<Stack>)
        ensures
            stack is Some == is_stack_text(string@),
            stack matches Some(stack) ==> stack@ == records_of(string@),
    {
        let ghost all = lines_of(string@);
        let mut records: Vec<StackRecord> = Vec::new();
        let mut rest: &str = string;
        let mut len = rest.unicode_len();
        while len > 0
            invariant
                len == rest@.len(),
                all == lines_of(string@),
                records@.len() <= all.len(),
                lines_of(rest@) == all.skip(records@.len() as int),
                forall|i: int| 0 <= i < records@.len() ==> record_of(#[trigger] all[i]) == Some(records@[i]@),
            decreases rest@.len(),
        {
            let ghost done = records@.len() as int;
            let end = find_first(rest, '\n');
            let line: &str = if end < len {
                chomp(rest.substring_char(0, end))
            } else {
                rest
            };
            let next: &str = if end < len {
                rest.substring_char(end + 1, len)
            } else {
                rest.substring_char(len, len)
            };
            proof {
                let tail = all.skip(done);
                assert(tail.len() > 0);
                assert(tail[0] == line@);
                assert(all[done] == line@);
                if end < len {
                    assert(tail.skip(1) =~= lines_of(next@));
                } else {
                    assert(next@ =~= Seq::<char>::empty());
                    assert(tail.skip(1) =~= lines_of(next@));
                }
                assert(all.skip(done + 1) =~= tail.skip(1));
            }
            match parse_record(line) {
                Some(record) => {
                    records.push(record);
                },
                None => {
                    return None;
                },
            }
            rest = next;
            len = rest.unicode_len();
        }
        proof {
            assert(all.skip(records@.len() as int).len() == 0);
            assert(records@.len() == all.len());
            let stack = Stack { records };
            assert(stack@ =~= records_of(string@));
        }
        Some(Stack { records })
    }

    /// Reads a stack trace as the engine prints it.
    pub fn from_string(string: &str) -> (stack: Stack)
        requires
            is_stack_text(string@),
        ensures
            stack@ == records_of(string@),
    {
        match Stack::parse(string) {
            Some(stack) => stack,
            None => Stack { records: Vec::new() },
        }
    }

    /// Whether the stack has no frame.
    pub fn is_empty(&self) -> (empty: bool)
        ensures
            empty == (self@.len() == 0),
    {
        self.records.len() == 0
    }

    /// Moves the location of each frame from the generated file to the
    /// source.
    pub fn transform_with_sourcemap(&mut self, sourcemap: &SourceMap)
        ensures
            final(self)@.len() == old(self)@.len(),
            forall|i: int|
                0 <= i < old(self)@.len() ==> (#[trigger] final(self)@[i]).function == old(self)@[i].function
                    && old(self)@[i].location.maps_to(mappings(*sourcemap), final(self)@[i].location),
    {
        let mut i: usize = 0;
        while i < self.records.len()
            invariant
                i <= self.records@.len(),
                self@.len() == old(self)@.len(),
                forall|k: int|
                    0 <= k < i ==> (#[trigger] self@[k]).function == old(self)@[k].function && old(
                        self,
                    )@[k].location.maps_to(mappings(*sourcemap), self@[k].location),
                forall|k: int| i <= k < self@.len() ==> #[trigger] self@[k] == old(self)@[k],
            decreases self.records@.len() - i,
        {
            let ghost before = self.records@;
            let ghost seen = self@;
            self.records[i].transform_with_sourcemap(sourcemap);
            proof {
                assert(self.records@.len() == before.len());
                assert forall|k: int| 0 <= k < before.len() && k != i implies self.records@[k] == before[k] by {}
                assert forall|k: int| 0 <= k < seen.len() && k != i implies #[trigger] self@[k] == seen[k] by {
                    assert(self.records@[k] == before[k]);
                }
                assert(seen[i as int] == before[i as int]@);
                assert(self@[i as int] == self.records@[i as int]@);
            }
            i += 1;
        }
    }

    /// The stack for display: each frame on a line of its own behind two
    /// spaces.
    pub fn format(&self) -> (string: String)
        ensures
            string@ == stack_text(self@),
    {
        let mut string = String::new();
        let mut i: usize = 0;
        while i < self.records.len()
            invariant
                i <= self.records@.len(),
                string@ == stack_text(self@.take(i as int)),
            decreases self.records@.len() - i,
        {
            proof {
                reveal_strlit("\n");
                reveal_strlit("  ");
                assert("\n"@ =~= seq!['\n']);
                assert("  "@ =~= seq![' ', ' ']);
                assert(self@.take(i + 1).drop_last() =~= self@.take(i as int));
                assert(self@.take(i + 1).last() == self.records@[i as int]@);
            }
            if i > 0 {
                string.append("\n");
            }
            string.append("  ");
            let text = self.records[i].to_string();
            string.append(text.as_str());
            i += 1;
        }
        proof {
            assert(self@.take(i as int) =~= self@);
        }
        string
    }
}

/// The line without the carriage return at its end, if it has one.
fn chomp(line: &str) -> (short: &str)
    ensures
        short@ == chomped(line@),
{
    let len = line.unicode_len();
    if len > 0 && line.get_char(len - 1) == '\r' {
        line.substring_char(0, len - 1)
    } else {
        line
    }
}

} // verus!
