//! Reading what the tools print: the coverage report and the line counts.

use crate::json::{
    as_bool, as_object, as_u64, document, member, members, object_from_str, object_get,
    object_members, value_as_bool, value_as_object, value_as_u64,
};
use crate::report::{
    Coverage, CoverageLines, FileCoverage, FileLines, LanguageInfo, LanguageLines, Percentage,
    Quality, QualityLines, Share, Sloc, SlocLines,
};
use crate::text::{
    all_digits, contains, decimal_value, digit, digit_of, digit_value, equal, first_occurrence,
    from_chars, halves, is_digit, lemma_first_occurrence_of_char, lemma_no_occurrence_of_char,
    lemma_numeral, lemma_split_by_nonempty, number_u32, numeral, parse_digits, parse_u32, split,
    split_by, split_once, to_chars, trim, trimmed, unsigned, views, without_plus,
};
use vstd::prelude::*;
use vstd::string::StringExecFns;

verus! {

/// Why the output of a tool could not be read.
#[derive(Debug, Clone, Copy, PartialEq, Eq, Structural)]
pub enum ParseError {
    /// The line counts are not a JSON object.
    InvalidJson,
    /// An entry of the line counts lacks a count, or holds one of another
    /// shape.
    MalformedEntry,
    /// No section of the coverage report holds the marker of the summary.
    MissingSummary,
    /// A section of the coverage report lacks one of its parts.
    MalformedSection,
    /// A token that should be a number is none.
    MalformedNumber,
    /// A range of lines whose first or last line is no number.
    MalformedRange,
    /// The summary states more covered lines than lines.
    InconsistentSummary,
}

/// What a result of reading says, with what was read taken by its text.
pub open spec fn parsed<T: DeepView>(result: Result<T, ParseError>) -> Result<T::V, ParseError> {
    match result {
        Ok(value) => Ok(value.deep_view()),
        Err(error) => Err(error),
    }
}

/// Every line from `start` to `end`, both included.
pub open spec fn line_range(start: u32, end: u32) -> Seq<u32> {
    Seq::new(
        (if start <= end {
            end - start + 1
        } else {
            0
        }) as nat,
        |i: int| (start + i) as u32,
    )
}

/// The lines that one token of a list of lines stands for: a single line, or
/// with a hyphen the lines from the one before it to the one after it.
pub open spec fn token_lines(token: Seq<char>) -> Result<Seq<u32>, ParseError> {
    match halves(token, "-"@) {
        None => match number_u32(token) {
            Some(line) => Ok(seq![line]),
            None => Err(ParseError::MalformedNumber),
        },
        Some((first, last)) => match (number_u32(first), number_u32(last)) {
            (Some(start), Some(end)) => Ok(line_range(start, end)),
            _ => Err(ParseError::MalformedRange),
        },
    }
}

/// The lines that a list of tokens stands for, in the order of the tokens,
/// each token without the white space around it. The first token that cannot
/// be read decides the error.
pub open spec fn list_lines(tokens: Seq<Seq<char>>) -> Result<Seq<u32>, ParseError>
    decreases tokens.len(),
{
    if tokens.len() == 0 {
        Ok(Seq::empty())
    } else {
        match token_lines(trimmed(tokens.first())) {
            Err(error) => Err(error),
            Ok(lines) => match list_lines(tokens.drop_first()) {
                Err(error) => Err(error),
                Ok(more) => Ok(lines + more),
            },
        }
    }
}

/// What one section of the coverage report says of a file: its name before
/// the first colon, and after it the uncovered lines, separated by commas.
pub open spec fn file_lines(section: Seq<char>) -> Result<FileLines, ParseError> {
    match halves(section, ":"@) {
        None => Err(ParseError::MalformedSection),
        Some((name, list)) => match list_lines(split_by(list, ","@)) {
            Err(error) => Err(error),
            Ok(lines) => Ok(FileLines { name, uncovered_lines: lines }),
        },
    }
}

/// What the sections of the coverage report say of the files, in their order.
/// The first section that cannot be read decides the error.
pub open spec fn files_lines(sections: Seq<Seq<char>>) -> Result<Seq<FileLines>, ParseError>
    decreases sections.len(),
{
    if sections.len() == 0 {
        Ok(Seq::empty())
    } else {
        match file_lines(sections.first()) {
            Err(error) => Err(error),
            Ok(file) => match files_lines(sections.drop_first()) {
                Err(error) => Err(error),
                Ok(more) => Ok(seq![file] + more),
            },
        }
    }
}

/// Appends the lines from `start` to `end`, both included.
fn push_range(lines: &mut Vec<u32>, start: u32, end: u32)
    ensures
        final(lines)@ == old(lines)@ + line_range(start, end),
{
    let mut next: u64 = start as u64;
    assert(lines@ =~= old(lines)@ + line_range(start, end).take(0));
    while next <= end as u64
        invariant
            start <= next <= end + 1 || (start > end && next == start),
            lines@ == old(lines)@ + line_range(start, end).take(next - start),
        decreases end + 1 - next,
    {
        lines.push(next as u32);
        assert(lines@ =~= old(lines)@ + line_range(start, end).take(next + 1 - start));
        next += 1;
    }
    assert(line_range(start, end).take(next - start) =~= line_range(start, end));
}

/// Appends the lines that a token stands for.
fn push_token(lines: &mut Vec<u32>, token: &[char]) -> (r: Result<(), ParseError>)
    ensures
        match token_lines(token@) {
            Ok(more) => r is Ok && final(lines)@ == old(lines)@ + more,
            Err(error) => r == Err::<(), ParseError>(error),
        },
{
    let hyphen = to_chars("-");
    match split_once(token, hyphen.as_slice()) {
        None => match parse_u32(token) {
            Some(line) => {
                lines.push(line);
                assert(lines@ =~= old(lines)@ + seq![line]);
                Ok(())
            },
            None => Err(ParseError::MalformedNumber),
        },
        Some((first, last)) => match (parse_u32(first), parse_u32(last)) {
            (Some(start), Some(end)) => {
                push_range(lines, start, end);
                Ok(())
            },
            _ => Err(ParseError::MalformedRange),
        },
    }
}

/// Reads one section of the coverage report: the name of a file, a colon, and
/// the uncovered lines of the file, each a line or a range of lines.
pub fn parse_file_coverage(section: &str) -> (r: Result<FileCoverage, ParseError>)
    ensures
        parsed(r) == file_lines(section@),
{
    let text = to_chars(section);
    let colon = to_chars(":");
    let comma = to_chars(",");
    match split_once(text.as_slice(), colon.as_slice()) {
        None => Err(ParseError::MalformedSection),
        Some((name, list)) => {
            let tokens = split(list, comma.as_slice());
            let mut lines: Vec<u32> = Vec::new();
            let mut i: usize = 0;
            assert(views(tokens@).skip(0) =~= views(tokens@));
            while i < tokens.len()
                invariant
                    i <= tokens.len(),
                    file_lines(section@) == match list_lines(views(tokens@)) {
                        Ok(lines) => Ok(FileLines { name: name@, uncovered_lines: lines }),
                        Err(error) => Err(error),
                    },
                    list_lines(views(tokens@)) == match list_lines(views(tokens@).skip(i as int)) {
                        Ok(more) => Ok(lines@ + more),
                        Err(error) => Err(error),
                    },
                decreases tokens.len() - i,
            {
                let ghost rest = views(tokens@).skip(i as int);
                let ghost before = lines@;
                assert(rest.first() == tokens@[i as int]@);
                assert(rest.drop_first() =~= views(tokens@).skip(i + 1));
                match push_token(&mut lines, trim(tokens[i])) {
                    Err(error) => {
                        return Err(error);
                    },
                    Ok(_) => {
                        assert forall|first: Seq<u32>, more: Seq<u32>|
                            before + (first + more) == #[trigger] ((before + first) + more) by {
                            assert(before + (first + more) =~= (before + first) + more);
                        }
                    },
                }
                i += 1;
            }
            assert(lines@ + Seq::<u32>::empty() =~= lines@);
            Ok(FileCoverage { name: from_chars(name), uncovered_lines: lines })
        },
    }
}

/// Reads the sections of the coverage report that speak of files, one file
/// each.
pub fn parse_each_file_uncovered_lines(files: Vec<String>) -> (r: Result<
    Vec<FileCoverage>,
    ParseError,
>)
    ensures
        parsed(r) == files_lines(files.deep_view()),
{
    let mut coverage: Vec<FileCoverage> = Vec::new();
    let mut i: usize = 0;
    assert(files.deep_view().skip(0) =~= files.deep_view());
    assert(coverage.deep_view() =~= Seq::<FileLines>::empty());
    while i < files.len()
        invariant
            i <= files.len(),
            files_lines(files.deep_view()) == match files_lines(files.deep_view().skip(i as int)) {
                Ok(more) => Ok(coverage.deep_view() + more),
                Err(error) => Err(error),
            },
        decreases files.len() - i,
    {
        let ghost rest = files.deep_view().skip(i as int);
        let ghost before = coverage.deep_view();
        assert(rest.first() == files[i as int]@);
        assert(rest.drop_first() =~= files.deep_view().skip(i + 1));
        match parse_file_coverage(files[i].as_str()) {
            Err(error) => {
                return Err(error);
            },
            Ok(file) => {
                coverage.push(file);
                assert(coverage.deep_view() =~= before + seq![file@]);
                assert forall|more: Seq<FileLines>|
                    before + (seq![file@] + more) == #[trigger] ((before + seq![file@]) + more) by {
                    assert(before + (seq![file@] + more) =~= (before + seq![file@]) + more);
                }
            },
        }
        i += 1;
    }
    assert(coverage.deep_view() + Seq::<FileLines>::empty() =~= coverage.deep_view());
    Ok(coverage)
}

/// The sections of the coverage report: the pieces that the double bars part
/// it into, but the first two, each without the white space around it.
pub open spec fn report_sections(output: Seq<char>) -> Seq<Seq<char>> {
    let pieces = split_by(output, "||"@);
    if pieces.len() <= 2 {
        Seq::empty()
    } else {
        pieces.skip(2).map_values(|piece: Seq<char>| trimmed(piece))
    }
}

/// Cuts the coverage report into its sections, and leaves out the two that
/// come first.
pub fn parse_tarpaulin_output(tarpaulin_output: String) -> (sections: Vec<String>)
    ensures
        sections.deep_view() == report_sections(tarpaulin_output@),
{
    let text = to_chars(tarpaulin_output.as_str());
    let bars = to_chars("||");
    let pieces = split(text.as_slice(), bars.as_slice());
    let mut sections: Vec<String> = Vec::new();
    let mut i: usize = 2;
    while i < pieces.len()
        invariant
            2 <= i,
            i <= pieces.len() || i == 2,
            sections.len() == (if i <= pieces.len() {
                i - 2
            } else {
                0
            }),
            forall|j: int| 0 <= j < sections.len() ==> sections[j]@ == trimmed(pieces@[j + 2]@),
        decreases pieces.len() - i,
    {
        sections.push(from_chars(trim(pieces[i])));
        i += 1;
    }
    assert forall|j: int| 0 <= j < sections.len() implies sections[j]@ == trimmed(
        split_by(tarpaulin_output@, "||"@)[j + 2],
    ) by {
        assert(views(pieces@)[j + 2] == pieces@[j + 2]@);
    }
    assert(views(pieces@).len() == pieces@.len());
    assert(sections.deep_view() =~= report_sections(tarpaulin_output@));
    sections
}

/// The digits without the zeros at their end.
pub open spec fn significant(digits: Seq<u8>) -> Seq<u8>
    decreases digits.len(),
{
    if digits.len() > 0 && digits.last() == 0 {
        significant(digits.drop_last())
    } else {
        digits
    }
}

/// The share that a decimal numeral stands for: digits, with or without a
/// point among them, after an optional plus sign. Zeros at the end of the
/// digits after the point say nothing and are left out. No share is above
/// 100.
pub open spec fn share_of(text: Seq<char>) -> Option<Share> {
    let (whole, fraction) = match halves(unsigned(text), "."@) {
        Some(parts) => parts,
        None => (unsigned(text), Seq::empty()),
    };
    let share = Share {
        whole: decimal_value(whole) as u8,
        fraction: significant(fraction.map_values(|c: char| digit_value(c) as u8)),
    };
    if whole.len() + fraction.len() > 0 && all_digits(whole) && all_digits(fraction)
        && decimal_value(whole) <= 100 && share.wf() {
        Some(share)
    } else {
        None
    }
}

/// Reads a share.
pub fn parse_percentage(text: &[char]) -> (r: Option<Percentage>)
    ensures
        match r {
            Some(percentage) => share_of(text@) == Some(percentage@),
            None => share_of(text@) is None,
        },
{
    let body = without_plus(text);
    let point = to_chars(".");
    let empty: Vec<char> = Vec::new();
    let (whole, digits) = match split_once(body, point.as_slice()) {
        Some(parts) => parts,
        None => (body, empty.as_slice()),
    };
    assert(empty@ =~= Seq::<char>::empty());
    if whole.len() == 0 && digits.len() == 0 {
        return None;
    }
    let units: u32 = match parse_digits(whole) {
        Some(units) => units,
        None => {
            return None;
        },
    };
    if units > 100 {
        return None;
    }
    let mut fraction: Vec<u8> = Vec::new();
    let mut i: usize = 0;
    while i < digits.len()
        invariant
            i <= digits.len(),
            (whole@, digits@) == match halves(unsigned(text@), "."@) {
                Some(parts) => parts,
                None => (unsigned(text@), Seq::<char>::empty()),
            },
            fraction.len() == i,
            forall|j: int| 0 <= j < i ==> is_digit(#[trigger] digits@[j]),
            forall|j: int| 0 <= j < i ==> #[trigger] fraction@[j] == digit_value(digits@[j]) as u8,
        decreases digits.len() - i,
    {
        let c = digits[i];
        if !digit(c) {
            return None;
        }
        fraction.push((c as u32 - '0' as u32) as u8);
        i += 1;
    }
    let ghost all = digits@.map_values(|c: char| digit_value(c) as u8);
    assert(fraction@ =~= all);
    while fraction.len() > 0 && fraction[fraction.len() - 1] == 0
        invariant
            significant(fraction@) == significant(all),
            forall|j: int| 0 <= j < fraction.len() ==> #[trigger] fraction@[j] <= 9,
        decreases fraction.len(),
    {
        let ghost before = fraction@;
        fraction.pop();
        assert(fraction@ =~= before.drop_last());
    }
    if units == 100 && fraction.len() > 0 {
        return None;
    }
    Some(Percentage { whole: units as u8, fraction })
}

/// A share that is written out and read again is the same share.
pub proof fn lemma_share_round_trip(share: Share)
    requires
        share.wf(),
    ensures
        share_of(share.text()) == Some(share),
{
    reveal_strlit(".");
    assert("."@ =~= seq!['.']);
    let whole = numeral(share.whole as nat);
    let digits = share.fraction.map_values(|d: u8| digit_of(d as nat));
    let text = share.text();
    lemma_numeral(share.whole as nat);
    assert(unsigned(text) == text);
    assert forall|j: int| 0 <= j < digits.len() implies is_digit(
        #[trigger] digits[j],
    ) && digit_value(digits[j]) == share.fraction[j] by {
        assert(share.fraction[j] <= 9);
    }
    let read = digits.map_values(|c: char| digit_value(c) as u8);
    assert(significant(share.fraction) == share.fraction);
    if share.fraction.len() == 0 {
        lemma_no_occurrence_of_char(text, '.');
        assert(halves(text, "."@) is None);
        assert(Seq::<char>::empty().map_values(|c: char| digit_value(c) as u8)
            =~= share.fraction);
        assert(all_digits(Seq::<char>::empty()));
    } else {
        let at = whole.len() as int;
        lemma_first_occurrence_of_char(text, '.', at);
        assert(text.take(at) =~= whole);
        assert(text.skip(at + 1) =~= digits);
        assert(halves(text, "."@) == Some((whole, digits)));
        assert(read =~= share.fraction);
        assert(all_digits(digits));
    }
}

/// What the summary of the coverage report says: before the first comma the
/// share of covered lines, up to the percent sign; after it the numbers of
/// covered lines and of lines, with a slash between them.
pub open spec fn summary_lines(line: Seq<char>) -> Result<CoverageLines, ParseError> {
    let fields = split_by(line, ","@);
    match share_of(split_by(trimmed(fields[0]), "%"@)[0]) {
        None => Err(ParseError::MalformedNumber),
        Some(share) => {
            if fields.len() < 2 {
                Err(ParseError::MalformedSection)
            } else {
                let counts = split_by(split_by(trimmed(fields[1]), " "@)[0], "/"@);
                if counts.len() < 2 {
                    Err(ParseError::MalformedSection)
                } else {
                    match (number_u32(counts[0]), number_u32(counts[1])) {
                        (Some(covered), Some(total)) => {
                            if covered <= total {
                                Ok(
                                    CoverageLines {
                                        file_coverage: Seq::empty(),
                                        total_coverage_percentage: share,
                                        num_covered_lines: covered,
                                        total_lines: total,
                                    },
                                )
                            } else {
                                Err(ParseError::InconsistentSummary)
                            }
                        },
                        _ => Err(ParseError::MalformedNumber),
                    }
                }
            }
        },
    }
}

/// Reads the summary of the coverage report. The coverage that comes back
/// names no file yet.
pub fn parse_total_coverage_data(total_coverage_data: String) -> (r: Result<Coverage, ParseError>)
    ensures
        parsed(r) == summary_lines(total_coverage_data@),
        r matches Ok(coverage) ==> coverage@.wf(),
{
    let text = to_chars(total_coverage_data.as_str());
    let comma = to_chars(",");
    let percent = to_chars("%");
    let space = to_chars(" ");
    let slash = to_chars("/");
    let fields = split(text.as_slice(), comma.as_slice());
    proof {
        lemma_split_by_nonempty(text@, comma@);
    }
    let first = trim(fields[0]);
    let shares = split(first, percent.as_slice());
    proof {
        lemma_split_by_nonempty(first@, percent@);
    }
    assert(views(fields@)[0] == fields@[0]@);
    assert(views(shares@)[0] == shares@[0]@);
    let percentage = match parse_percentage(shares[0]) {
        Some(percentage) => percentage,
        None => {
            return Err(ParseError::MalformedNumber);
        },
    };
    if fields.len() < 2 {
        return Err(ParseError::MalformedSection);
    }
    assert(views(fields@)[1] == fields@[1]@);
    let second = trim(fields[1]);
    let words = split(second, space.as_slice());
    proof {
        lemma_split_by_nonempty(second@, space@);
    }
    assert(views(words@)[0] == words@[0]@);
    let counts = split(words[0], slash.as_slice());
    if counts.len() < 2 {
        return Err(ParseError::MalformedSection);
    }
    assert(views(counts@)[0] == counts@[0]@);
    assert(views(counts@)[1] == counts@[1]@);
    match (parse_u32(counts[0]), parse_u32(counts[1])) {
        (Some(covered), Some(total)) => {
            if covered <= total {
                let coverage = Coverage {
                    file_coverage: Vec::new(),
                    total_coverage_percentage: percentage,
                    num_covered_lines: covered,
                    total_lines: total,
                };
                assert(coverage.file_coverage.deep_view() =~= Seq::<FileLines>::empty());
                Ok(coverage)
            } else {
                Err(ParseError::InconsistentSummary)
            }
        },
        _ => Err(ParseError::MalformedNumber),
    }
}

/// The place of the first section that holds the marker of the summary.
pub open spec fn summary_position(sections: Seq<Seq<char>>) -> Option<int>
    decreases sections.len(),
{
    if sections.len() == 0 {
        None
    } else if first_occurrence(sections.first(), "Total Lines"@) is Some {
        Some(0)
    } else {
        match summary_position(sections.drop_first()) {
            Some(at) => Some(at + 1),
            None => None,
        }
    }
}

/// What the coverage report says. The sections before the first one that
/// holds the marker of the summary speak of one file each, and the last
/// section is the summary. The summary is read before the files.
pub open spec fn coverage_lines(output: Seq<char>) -> Result<CoverageLines, ParseError> {
    let sections = report_sections(output);
    match summary_position(sections) {
        None => Err(ParseError::MissingSummary),
        Some(at) => match summary_lines(sections.last()) {
            Err(error) => Err(error),
            Ok(total) => match files_lines(sections.take(at)) {
                Err(error) => Err(error),
                Ok(files) => Ok(CoverageLines { file_coverage: files, ..total }),
            },
        },
    }
}

/// Finds the first section that holds the marker of the summary.
pub fn find_summary(sections: &Vec<String>) -> (r: Option<usize>)
    ensures
        match r {
            Some(at) => summary_position(sections.deep_view()) == Some(at as int) && at
                < sections.len(),
            None => summary_position(sections.deep_view()) is None,
        },
{
    let marker = to_chars("Total Lines");
    let mut i: usize = 0;
    assert(sections.deep_view().skip(0) =~= sections.deep_view());
    while i < sections.len()
        invariant
            i <= sections.len(),
            marker@ == "Total Lines"@,
            summary_position(sections.deep_view()) == match summary_position(
                sections.deep_view().skip(i as int),
            ) {
                Some(at) => Some(at + i),
                None => None,
            },
        decreases sections.len() - i,
    {
        let ghost rest = sections.deep_view().skip(i as int);
        assert(rest.first() == sections[i as int]@);
        assert(rest.drop_first() =~= sections.deep_view().skip(i + 1));
        let section = to_chars(sections[i].as_str());
        if contains(section.as_slice(), marker.as_slice()) {
            return Some(i);
        }
        i += 1;
    }
    None
}

/// Reads the coverage report of the coverage tool.
pub fn search_code_coverage_json(tarpaulin_output: String) -> (r: Result<Coverage, ParseError>)
    ensures
        parsed(r) == coverage_lines(tarpaulin_output@),
        r matches Ok(coverage) ==> coverage@.wf(),
{
    let mut sections = parse_tarpaulin_output(tarpaulin_output);
    let ghost all = sections.deep_view();
    let at = match find_summary(&sections) {
        Some(at) => at,
        None => {
            return Err(ParseError::MissingSummary);
        },
    };
    let last = sections[sections.len() - 1].clone();
    assert(last@ == all.last());
    let mut coverage = match parse_total_coverage_data(last) {
        Ok(coverage) => coverage,
        Err(error) => {
            return Err(error);
        },
    };
    sections.truncate(at);
    assert(sections.deep_view() =~= all.take(at as int));
    match parse_each_file_uncovered_lines(sections) {
        Ok(files) => {
            coverage.file_coverage = files;
            Ok(coverage)
        },
        Err(error) => Err(error),
    }
}

/// What the line counts hold for one name: each of the four counts as far as
/// it is there and of the right shape.
#[derive(Debug, Clone, Copy)]
pub struct Counts {
    pub blanks: Option<u64>,
    pub code: Option<u64>,
    pub comments: Option<u64>,
    pub inaccurate: Option<bool>,
}

/// One entry of the line counts: a name, and what stands under it, as far as
/// that is an object.
#[derive(Debug)]
pub struct Entry {
    pub name: String,
    pub counts: Option<Counts>,
}

/// The text of an `Entry`.
pub struct EntryText {
    pub name: Seq<char>,
    pub counts: Option<Counts>,
}

impl View for Entry {
    type V = EntryText;

    open spec fn view(&self) -> EntryText {
        EntryText { name: self.name@, counts: self.counts }
    }
}

impl DeepView for Entry {
    type V = EntryText;

    open spec fn deep_view(&self) -> EntryText {
        self@
    }
}

/// The line counts that hold nothing yet.
pub open spec fn no_lines() -> SlocLines {
    SlocLines { language_info: Seq::empty(), code: 0, comments: 0, inaccurate: false }
}

/// The line counts with one more entry. The entry named `Total` gives the
/// totals and is no language; every other entry is a language. An entry that
/// lacks one of the counts it is read for, or holds one that does not fit,
/// is malformed.
pub open spec fn with_entry(sloc: SlocLines, entry: EntryText) -> Result<SlocLines, ParseError> {
    match entry.counts {
        None => Err(ParseError::MalformedEntry),
        Some(counts) => {
            if entry.name == "Total"@ {
                match (counts.code, counts.comments, counts.inaccurate) {
                    (Some(code), Some(comments), Some(inaccurate)) => {
                        if code <= usize::MAX && comments <= usize::MAX {
                            Ok(
                                SlocLines {
                                    code: code as usize,
                                    comments: comments as usize,
                                    inaccurate,
                                    ..sloc
                                },
                            )
                        } else {
                            Err(ParseError::MalformedEntry)
                        }
                    },
                    _ => Err(ParseError::MalformedEntry),
                }
            } else {
                match (counts.blanks, counts.code, counts.comments) {
                    (Some(blanks), Some(code), Some(comments)) => {
                        if blanks <= usize::MAX && code <= usize::MAX && comments <= usize::MAX {
                            Ok(
                                SlocLines {
                                    language_info: sloc.language_info.push(
                                        LanguageLines {
                                            language: entry.name,
                                            blanks: blanks as usize,
                                            code: code as usize,
                                            comments: comments as usize,
                                        },
                                    ),
                                    ..sloc
                                },
                            )
                        } else {
                            Err(ParseError::MalformedEntry)
                        }
                    },
                    _ => Err(ParseError::MalformedEntry),
                }
            }
        },
    }
}

/// The line counts that a list of entries gives, taken one after the other.
/// The first malformed entry makes the whole list malformed.
pub open spec fn sloc_of(entries: Seq<EntryText>) -> Result<SlocLines, ParseError>
    decreases entries.len(),
{
    if entries.len() == 0 {
        Ok(no_lines())
    } else {
        match sloc_of(entries.drop_last()) {
            Err(error) => Err(error),
            Ok(sloc) => with_entry(sloc, entries.last()),
        }
    }
}

/// A list that starts with a malformed list is malformed in the same way.
pub proof fn lemma_sloc_of_prefix(entries: Seq<EntryText>, n: int)
    requires
        0 <= n <= entries.len(),
        sloc_of(entries.take(n)) is Err,
    ensures
        sloc_of(entries) == sloc_of(entries.take(n)),
    decreases entries.len(),
{
    if n == entries.len() {
        assert(entries.take(n) =~= entries);
    } else {
        assert(entries.drop_last().take(n) =~= entries.take(n));
        lemma_sloc_of_prefix(entries.drop_last(), n);
    }
}

/// Puts the line counts together from their entries.
pub fn sloc_from_entries(entries: &Vec<Entry>) -> (r: Result<Sloc, ParseError>)
    ensures
        parsed(r) == sloc_of(entries.deep_view()),
        r matches Ok(sloc) ==> sloc@.wf(),
{
    let mut sloc = Sloc { language_info: Vec::new(), code: 0, comments: 0, inaccurate: false };
    let total = to_chars("Total");
    let mut i: usize = 0;
    assert(sloc.language_info.deep_view() =~= Seq::<LanguageLines>::empty());
    assert(entries.deep_view().take(0) =~= Seq::<EntryText>::empty());
    while i < entries.len()
        invariant
            i <= entries.len(),
            total@ == "Total"@,
            sloc_of(entries.deep_view().take(i as int)) == Ok::<SlocLines, ParseError>(sloc@),
            sloc@.wf(),
        decreases entries.len() - i,
    {
        let entry = &entries[i];
        let ghost before = sloc@;
        proof {
            let upto = entries.deep_view().take(i + 1);
            assert(upto.drop_last() =~= entries.deep_view().take(i as int));
            assert(upto.last() == entry@);
            assert(sloc_of(upto) == with_entry(before, entry@));
            if with_entry(before, entry@) is Err {
                lemma_sloc_of_prefix(entries.deep_view(), i + 1);
            }
        }
        let counts = match entry.counts {
            Some(counts) => counts,
            None => {
                return Err(ParseError::MalformedEntry);
            },
        };
        let name = to_chars(entry.name.as_str());
        if equal(name.as_slice(), total.as_slice()) {
            match (counts.code, counts.comments, counts.inaccurate) {
                (Some(code), Some(comments), Some(inaccurate)) => {
                    if code > usize::MAX as u64 || comments > usize::MAX as u64 {
                        return Err(ParseError::MalformedEntry);
                    }
                    sloc.code = code as usize;
                    sloc.comments = comments as usize;
                    sloc.inaccurate = inaccurate;
                },
                _ => {
                    return Err(ParseError::MalformedEntry);
                },
            }
        } else {
            match (counts.blanks, counts.code, counts.comments) {
                (Some(blanks), Some(code), Some(comments)) => {
                    if blanks > usize::MAX as u64 || code > usize::MAX as u64 || comments
                        > usize::MAX as u64 {
                        return Err(ParseError::MalformedEntry);
                    }
                    sloc.language_info.push(
                        LanguageInfo {
                            language: entry.name.clone(),
                            blanks: blanks as usize,
                            code: code as usize,
                            comments: comments as usize,
                        },
                    );
                    assert(sloc.language_info.deep_view() =~= before.language_info.push(
                        LanguageLines {
                            language: entry.name@,
                            blanks: blanks as usize,
                            code: code as usize,
                            comments: comments as usize,
                        },
                    ));
                },
                _ => {
                    return Err(ParseError::MalformedEntry);
                },
            }
        }
        i += 1;
    }
    assert(entries.deep_view().take(i as int) =~= entries.deep_view());
    Ok(sloc)
}

/// The number that stands under a key of an object.
pub open spec fn number_member(
    object: serde_json::Map<String, serde_json::Value>,
    key: Seq<char>,
) -> Option<u64> {
    match member(members(object), key) {
        Some(value) => as_u64(value),
        None => None,
    }
}

/// The truth value that stands under a key of an object.
pub open spec fn flag_member(
    object: serde_json::Map<String, serde_json::Value>,
    key: Seq<char>,
) -> Option<bool> {
    match member(members(object), key) {
        Some(value) => as_bool(value),
        None => None,
    }
}

/// What a value of the line counts holds, where it is an object: the numbers
/// under `blanks`, `code` and `comments`, and the truth value under
/// `inaccurate`. Whatever else the object holds is left aside.
pub open spec fn counts_of(value: serde_json::Value) -> Option<Counts> {
    match as_object(value) {
        None => None,
        Some(object) => Some(
            Counts {
                blanks: number_member(object, "blanks"@),
                code: number_member(object, "code"@),
                comments: number_member(object, "comments"@),
                inaccurate: flag_member(object, "inaccurate"@),
            },
        ),
    }
}

/// The entries of the line counts that a JSON object holds, member by member.
pub open spec fn entries_of(json: serde_json::Map<String, serde_json::Value>) -> Seq<EntryText> {
    members(json).map_values(
        |entry: (Seq<char>, serde_json::Value)|
            EntryText { name: entry.0, counts: counts_of(entry.1) },
    )
}

/// Reads the number under a key of an object.
fn read_number(object: &serde_json::Map<String, serde_json::Value>, key: &str) -> (r: Option<u64>)
    ensures
        r == number_member(*object, key@),
{
    match object_get(object, key) {
        Some(value) => value_as_u64(value),
        None => None,
    }
}

/// Reads the truth value under a key of an object.
fn read_flag(object: &serde_json::Map<String, serde_json::Value>, key: &str) -> (r: Option<bool>)
    ensures
        r == flag_member(*object, key@),
{
    match object_get(object, key) {
        Some(value) => value_as_bool(value),
        None => None,
    }
}

/// Reads what a value of the line counts holds.
pub fn read_counts(value: &serde_json::Value) -> (r: Option<Counts>)
    ensures
        r == counts_of(*value),
{
    match value_as_object(value) {
        None => None,
        Some(object) => Some(
            Counts {
                blanks: read_number(object, "blanks"),
                code: read_number(object, "code"),
                comments: read_number(object, "comments"),
                inaccurate: read_flag(object, "inaccurate"),
            },
        ),
    }
}

/// Reads the line counts from the JSON object that the line counter prints:
/// one language for every member but `Total`, and the totals from `Total`.
pub fn parse_sloc_json(json: serde_json::Map<String, serde_json::Value>) -> (r: Result<
    Sloc,
    ParseError,
>)
    ensures
        parsed(r) == sloc_of(entries_of(json)),
        r matches Ok(sloc) ==> sloc@.wf(),
{
    let found = object_members(&json);
    let mut entries: Vec<Entry> = Vec::new();
    let mut i: usize = 0;
    while i < found.len()
        invariant
            i <= found.len(),
            found@.len() == members(json).len(),
            forall|j: int|
                0 <= j < found@.len() ==> (#[trigger] found@[j]).0@ == members(json)[j].0
                    && *found@[j].1 == members(json)[j].1,
            entries.len() == i,
            forall|j: int| 0 <= j < i ==> (#[trigger] entries[j])@ == entries_of(json)[j],
        decreases found.len() - i,
    {
        let (name, value) = found[i];
        entries.push(Entry { name: name.clone(), counts: read_counts(value) });
        i += 1;
    }
    assert(entries.deep_view() =~= entries_of(json));
    sloc_from_entries(&entries)
}

/// What the output of the line counter says: it has to be a JSON object, and
/// its members are the entries of the line counts.
pub open spec fn sloc_lines(output: Seq<char>) -> Result<SlocLines, ParseError> {
    match document(output) {
        None => Err(ParseError::InvalidJson),
        Some(json) => sloc_of(entries_of(json)),
    }
}

/// Reads the line counts from the output of the line counter.
pub fn search_sloc_number_json(output: &str) -> (r: Result<Sloc, ParseError>)
    ensures
        parsed(r) == sloc_lines(output@),
        r matches Ok(sloc) ==> sloc@.wf(),
{
    match object_from_str(output) {
        Ok(json) => parse_sloc_json(json),
        Err(_) => Err(ParseError::InvalidJson),
    }
}

/// What the outputs of the line counter and of the coverage tool say
/// together. The line counts are read first.
pub open spec fn quality_lines(sloc_output: Seq<char>, coverage_output: Seq<char>) -> Result<
    QualityLines,
    ParseError,
> {
    match sloc_lines(sloc_output) {
        Err(error) => Err(error),
        Ok(sloc) => match coverage_lines(coverage_output) {
            Err(error) => Err(error),
            Ok(coverage) => Ok(QualityLines { sloc, coverage }),
        },
    }
}

/// Puts the quality report together from the output of the line counter and
/// from the coverage report.
pub fn generate_quality_report(sloc_output: &str, tarpaulin_output: String) -> (r: Result<
    Quality,
    ParseError,
>)
    ensures
        parsed(r) == quality_lines(sloc_output@, tarpaulin_output@),
        r matches Ok(quality) ==> quality@.wf(),
{
    let sloc = match search_sloc_number_json(sloc_output) {
        Ok(sloc) => sloc,
        Err(error) => {
            return Err(error);
        },
    };
    match search_code_coverage_json(tarpaulin_output) {
        Ok(coverage) => Ok(Quality { sloc, coverage }),
        Err(error) => Err(error),
    }
}

/// The name of the file that holds the report called `name`.
pub fn report_file_name(name: &str) -> (file: String)
    ensures
        file@ == name@ + ".json"@,
{
    let mut file = name.to_owned();
    file.append(".json");
    file
}

} // verus!
