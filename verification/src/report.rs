//! The shape of the report: lines of code by language, coverage by file, and
//! what holds them together.

use crate::text::{digit_char, digit_of, from_chars, numeral, push_numeral};
use vstd::prelude::*;

verus! {

/// Security-related information.
#[derive(Debug)]
pub struct Security;

/// The lines of one language in the analysed sources.
#[derive(Debug)]
pub struct LanguageInfo {
    /// The name of the programming language.
    pub language: String,
    /// The number of blank lines.
    pub blanks: usize,
    /// The number of lines of code.
    pub code: usize,
    /// The number of lines of comments.
    pub comments: usize,
}

/// The text of a `LanguageInfo`.
pub struct LanguageLines {
    pub language: Seq<char>,
    pub blanks: usize,
    pub code: usize,
    pub comments: usize,
}

impl View for LanguageInfo {
    type V = LanguageLines;

    open spec fn view(&self) -> LanguageLines {
        LanguageLines {
            language: self.language@,
            blanks: self.blanks,
            code: self.code,
            comments: self.comments,
        }
    }
}

impl DeepView for LanguageInfo {
    type V = LanguageLines;

    open spec fn deep_view(&self) -> LanguageLines {
        self@
    }
}

/// The lines of the analysed sources: by language, and in total. The total is
/// held apart from the languages and is none of them.
#[derive(Debug)]
pub struct Sloc {
    /// The lines of each language.
    pub language_info: Vec<LanguageInfo>,
    /// The total number of lines of code.
    pub code: usize,
    /// The total number of lines of comments.
    pub comments: usize,
    /// Whether the counts are known to be inaccurate.
    pub inaccurate: bool,
}

/// The text of a `Sloc`.
pub struct SlocLines {
    pub language_info: Seq<LanguageLines>,
    pub code: usize,
    pub comments: usize,
    pub inaccurate: bool,
}

impl SlocLines {
    /// The total is none of the languages.
    pub open spec fn wf(self) -> bool {
        forall|i: int|
            0 <= i < self.language_info.len() ==> (#[trigger] self.language_info[i]).language
                != "Total"@
    }
}

impl View for Sloc {
    type V = SlocLines;

    open spec fn view(&self) -> SlocLines {
        SlocLines {
            language_info: self.language_info.deep_view(),
            code: self.code,
            comments: self.comments,
            inaccurate: self.inaccurate,
        }
    }
}

impl DeepView for Sloc {
    type V = SlocLines;

    open spec fn deep_view(&self) -> SlocLines {
        self@
    }
}

/// The lines of one source file that no test reaches.
#[derive(Debug)]
pub struct FileCoverage {
    /// The name of the source file.
    pub name: String,
    /// The numbers of the lines that are not covered.
    pub uncovered_lines: Vec<u32>,
}

/// The text of a `FileCoverage`.
pub struct FileLines {
    pub name: Seq<char>,
    pub uncovered_lines: Seq<u32>,
}

impl View for FileCoverage {
    type V = FileLines;

    open spec fn view(&self) -> FileLines {
        FileLines { name: self.name@, uncovered_lines: self.uncovered_lines@ }
    }
}

impl DeepView for FileCoverage {
    type V = FileLines;

    open spec fn deep_view(&self) -> FileLines {
        self@
    }
}

/// A share in hundredths of the whole, as a decimal numeral: the part before
/// the point as a number, and the digits after the point one by one, without
/// zeros at their end.
#[derive(Debug)]
pub struct Percentage {
    /// The part before the decimal point.
    pub whole: u8,
    /// The digits after the decimal point, the tenths first.
    pub fraction: Vec<u8>,
}

/// The text of a `Percentage`.
pub struct Share {
    pub whole: u8,
    pub fraction: Seq<u8>,
}

impl Share {
    /// Whether the share lies between 0 and 100 and is written in one way
    /// only: every digit is one, the last digit after the point is no zero,
    /// and beside a whole part of 100 there is none.
    pub open spec fn wf(self) -> bool {
        &&& self.whole <= 100
        &&& forall|i: int| 0 <= i < self.fraction.len() ==> #[trigger] self.fraction[i] <= 9
        &&& self.fraction.len() > 0 ==> self.fraction.last() != 0
        &&& self.whole == 100 ==> self.fraction.len() == 0
    }

    /// The share as a decimal numeral, with a point where digits follow it.
    pub open spec fn text(self) -> Seq<char> {
        if self.fraction.len() == 0 {
            numeral(self.whole as nat)
        } else {
            numeral(self.whole as nat) + seq!['.'] + self.fraction.map_values(
                |d: u8| digit_of(d as nat),
            )
        }
    }
}

impl View for Percentage {
    type V = Share;

    open spec fn view(&self) -> Share {
        Share { whole: self.whole, fraction: self.fraction@ }
    }
}

impl Percentage {
    /// The share as a decimal numeral.
    pub fn to_text(&self) -> (text: String)
        ensures
            text@ == self@.text(),
    {
        let mut chars: Vec<char> = Vec::new();
        push_numeral(&mut chars, self.whole as u32);
        assert(chars@ =~= numeral(self.whole as nat));
        if self.fraction.len() > 0 {
            chars.push('.');
            let mut i: usize = 0;
            while i < self.fraction.len()
                invariant
                    i <= self.fraction.len(),
                    chars@ == numeral(self.whole as nat) + seq!['.'] + self.fraction@.take(
                        i as int,
                    ).map_values(|d: u8| digit_of(d as nat)),
                decreases self.fraction.len() - i,
            {
                chars.push(digit_char(self.fraction[i]));
                assert(chars@ =~= numeral(self.whole as nat) + seq!['.'] + self.fraction@.take(
                    i + 1,
                ).map_values(|d: u8| digit_of(d as nat)));
                i += 1;
            }
            assert(self.fraction@.take(i as int) =~= self.fraction@);
        }
        from_chars(chars.as_slice())
    }
}

/// The coverage of the analysed sources: by file, and in total.
#[derive(Debug)]
pub struct Coverage {
    /// The uncovered lines of each source file.
    pub file_coverage: Vec<FileCoverage>,
    /// The share of the lines that are covered, as the coverage tool states it.
    pub total_coverage_percentage: Percentage,
    /// The number of covered lines.
    pub num_covered_lines: u32,
    /// The number of lines.
    pub total_lines: u32,
}

/// The text of a `Coverage`.
pub struct CoverageLines {
    pub file_coverage: Seq<FileLines>,
    pub total_coverage_percentage: Share,
    pub num_covered_lines: u32,
    pub total_lines: u32,
}

impl CoverageLines {
    /// No more lines are covered than there are, and the share is one.
    pub open spec fn wf(self) -> bool {
        &&& self.num_covered_lines <= self.total_lines
        &&& self.total_coverage_percentage.wf()
    }
}

impl View for Coverage {
    type V = CoverageLines;

    open spec fn view(&self) -> CoverageLines {
        CoverageLines {
            file_coverage: self.file_coverage.deep_view(),
            total_coverage_percentage: self.total_coverage_percentage@,
            num_covered_lines: self.num_covered_lines,
            total_lines: self.total_lines,
        }
    }
}

impl DeepView for Coverage {
    type V = CoverageLines;

    open spec fn deep_view(&self) -> CoverageLines {
        self@
    }
}

/// Where the analysed sources come from and where they lie.
#[derive(Debug)]
pub struct Information {
    /// The remote path.
    pub remote: String,
    /// The local path.
    pub local: String,
}

/// The quality of the analysed sources: their lines and their coverage.
#[derive(Debug)]
pub struct Quality {
    /// The lines of code.
    pub sloc: Sloc,
    /// The coverage.
    pub coverage: Coverage,
}

/// The text of a `Quality`.
pub struct QualityLines {
    pub sloc: SlocLines,
    pub coverage: CoverageLines,
}

impl QualityLines {
    /// Both parts of the report are as they should be.
    pub open spec fn wf(self) -> bool {
        self.sloc.wf() && self.coverage.wf()
    }
}

impl View for Quality {
    type V = QualityLines;

    open spec fn view(&self) -> QualityLines {
        QualityLines { sloc: self.sloc@, coverage: self.coverage@ }
    }
}

impl DeepView for Quality {
    type V = QualityLines;

    open spec fn deep_view(&self) -> QualityLines {
        self@
    }
}

/// A comprehensive report.
#[derive(Debug)]
pub struct Report {
    /// Where the sources come from and where they lie.
    pub information: Information,
    /// The quality of the sources.
    pub quality: Quality,
    /// Security-related information.
    pub security: Security,
}

} // verus!
