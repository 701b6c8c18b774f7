//! What a run says: the lines for standard output and for the diagnostic
//! stream that go with a verdict.

use crate::lint::{Outcome, Verdict};
use vstd::prelude::*;
use vstd::string::StringExecFns;

verus! {

/// The character that stands for a digit.
pub open spec fn digit(d: nat) -> char
    recommends
        d < 10,
{
    if d == 0 {
        '0'
    } else if d == 1 {
        '1'
    } else if d == 2 {
        '2'
    } else if d == 3 {
        '3'
    } else if d == 4 {
        '4'
    } else if d == 5 {
        '5'
    } else if d == 6 {
        '6'
    } else if d == 7 {
        '7'
    } else if d == 8 {
        '8'
    } else {
        '9'
    }
}

/// A number in decimal, without leading zeros.
pub open spec fn decimal(n: nat) -> Seq<char>
    decreases n,
{
    if n < 10 {
        seq![digit(n)]
    } else {
        decimal(n / 10).push(digit(n % 10))
    }
}

/// The texts in order, with the separator between each two.
pub open spec fn joined(texts: Seq<Seq<char>>, separator: Seq<char>) -> Seq<char>
    decreases texts.len(),
{
    if texts.len() == 0 {
        Seq::empty()
    } else if texts.len() == 1 {
        texts[0]
    } else {
        joined(texts.drop_last(), separator) + separator + texts.last()
    }
}

/// The line that reports one duplicate group: the shared URI in quotes,
/// then the names of the duplicates with commas between them.
pub open spec fn group_line(uri: Seq<char>, names: Seq<Seq<char>>) -> Seq<char> {
    "  '"@ + uri + "': "@ + joined(names, ", "@)
}

/// The line of a group given as a pair.
pub open spec fn line_of() -> spec_fn((Seq<char>, Seq<Seq<char>>)) -> Seq<char> {
    |group: (Seq<char>, Seq<Seq<char>>)| group_line(group.0, group.1)
}

/// The lines of a run, apart for the two streams.
#[derive(Debug)]
pub struct Report {
    /// The lines for standard output.
    pub standard: Vec<String>,
    /// The lines for the diagnostic stream.
    pub diagnostic: Vec<String>,
}

/// The model of a [`Report`].
pub struct ReportText {
    pub standard: Seq<Seq<char>>,
    pub diagnostic: Seq<Seq<char>>,
}

impl View for Report {
    type V = ReportText;

    open spec fn view(&self) -> ReportText {
        ReportText {
            standard: self.standard.deep_view(),
            diagnostic: self.diagnostic.deep_view(),
        }
    }
}

/// What is said of an outcome. An unsupported version is named on the
/// diagnostic stream. A clean document gets one line on standard output.
/// Duplicates get a heading on standard output and one line for each group,
/// in the order of the groups, on the diagnostic stream.
pub open spec fn report_of(outcome: Outcome) -> ReportText {
    match outcome {
        Outcome::UnsupportedVersion { found } => ReportText {
            standard: Seq::empty(),
            diagnostic: seq!["Unsupported flake.lock version: "@ + decimal(found)],
        },
        Outcome::NoDuplicates => ReportText {
            standard: seq!["No duplicate inputs found."@],
            diagnostic: Seq::empty(),
        },
        Outcome::DuplicatesFound { groups } => ReportText {
            standard: seq![
                "The following flake uris contained duplicate entries in your flake.lock:"@,
            ],
            diagnostic: groups.map_values(line_of()),
        },
    }
}

/// The text of one digit.
fn digit_text(d: usize) -> (text: &'static str)
    requires
        d < 10,
    ensures
        text@ == seq![digit(d as nat)],
{
    proof {
        reveal_strlit("0");
        reveal_strlit("1");
        reveal_strlit("2");
        reveal_strlit("3");
        reveal_strlit("4");
        reveal_strlit("5");
        reveal_strlit("6");
        reveal_strlit("7");
        reveal_strlit("8");
        reveal_strlit("9");
    }
    let text = if d == 0 {
        "0"
    } else if d == 1 {
        "1"
    } else if d == 2 {
        "2"
    } else if d == 3 {
        "3"
    } else if d == 4 {
        "4"
    } else if d == 5 {
        "5"
    } else if d == 6 {
        "6"
    } else if d == 7 {
        "7"
    } else if d == 8 {
        "8"
    } else {
        "9"
    };
    assert(text@ =~= seq![digit(d as nat)]);
    text
}

/// Writes a number in decimal.
pub fn decimal_text(n: usize) -> (text: String)
    ensures
        text@ == decimal(n as nat),
{
    let mut text = String::from_str(digit_text(n % 10));
    let mut rest = n / 10;
    while rest > 0
        invariant
            rest > 0 ==> decimal(n as nat) == decimal(rest as nat) + text@,
            rest == 0 ==> decimal(n as nat) == text@,
        decreases rest,
    {
        let ghost shorter = text@;
        text = String::from_str(digit_text(rest % 10)).concat(text.as_str());
        proof {
            let d = seq![digit((rest % 10) as nat)];
            if rest < 10 {
                assert(decimal(rest as nat) + shorter =~= d + shorter);
            } else {
                assert(decimal(rest as nat) + shorter =~= decimal((rest / 10) as nat) + (d
                    + shorter));
            }
        }
        rest = rest / 10;
    }
    text
}

/// Joins texts with a separator between each two.
pub fn join_texts(texts: &Vec<String>, separator: &str) -> (text: String)
    ensures
        text@ == joined(texts.deep_view(), separator@),
{
    let mut text = String::new();
    let mut i: usize = 0;
    while i < texts.len()
        invariant
            i <= texts@.len(),
            text@ == joined(texts.deep_view().take(i as int), separator@),
        decreases texts@.len() - i,
    {
        let ghost before = texts.deep_view().take(i as int);
        if i > 0 {
            text.append(separator);
        }
        text.append(texts[i].as_str());
        proof {
            let after = texts.deep_view().take(i + 1);
            assert(after.drop_last() =~= before);
            assert(after.last() == texts@[i as int]@);
            if i == 0 {
                assert(text@ =~= after[0]);
            }
        }
        i += 1;
    }
    proof {
        assert(texts.deep_view().take(texts@.len() as int) =~= texts.deep_view());
    }
    text
}

/// The line that reports one duplicate group.
pub fn describe_group(uri: &str, names: &Vec<String>) -> (line: String)
    ensures
        line@ == group_line(uri@, names.deep_view()),
{
    let listed = join_texts(names, ", ");
    let mut line = String::from_str("  '");
    line.append(uri);
    line.append("': ");
    line.append(listed.as_str());
    line
}

impl Verdict {
    /// The lines that a run with this verdict prints.
    pub fn report(&self) -> (report: Report)
        ensures
            report@ == report_of(self@),
    {
        let mut standard: Vec<String> = Vec::new();
        let mut diagnostic: Vec<String> = Vec::new();
        match self {
            Verdict::UnsupportedVersion { found } => {
                let number = decimal_text(*found);
                let mut line = String::from_str("Unsupported flake.lock version: ");
                line.append(number.as_str());
                diagnostic.push(line);
                assert(diagnostic.deep_view() =~= report_of(self@).diagnostic);
                assert(standard.deep_view() =~= report_of(self@).standard);
            },
            Verdict::NoDuplicates => {
                standard.push(String::from_str("No duplicate inputs found."));
                assert(diagnostic.deep_view() =~= report_of(self@).diagnostic);
                assert(standard.deep_view() =~= report_of(self@).standard);
            },
            Verdict::DuplicatesFound { groups } => {
                standard.push(
                    String::from_str(
                        "The following flake uris contained duplicate entries in your flake.lock:",
                    ),
                );
                assert(standard.deep_view() =~= report_of(self@).standard);
                let entries = groups.entries();
                let mut i: usize = 0;
                while i < entries.len()
                    invariant
                        i <= entries@.len(),
                        entries.deep_view() == groups@,
                        diagnostic.deep_view() == groups@.take(i as int).map_values(line_of()),
                    decreases entries@.len() - i,
                {
                    let ghost before = diagnostic.deep_view();
                    let line = describe_group(entries[i].0.as_str(), &entries[i].1);
                    diagnostic.push(line);
                    assert(diagnostic.deep_view() =~= before.push(
                        group_line(groups@[i as int].0, groups@[i as int].1),
                    ));
                    assert(groups@.take(i + 1).map_values(line_of()) =~= groups@.take(
                        i as int,
                    ).map_values(line_of()).push(line_of()(groups@[i as int])));
                    i += 1;
                }
                assert(groups@.take(entries@.len() as int) =~= groups@);
            },
        }
        Report { standard, diagnostic }
    }
}

} // verus!
