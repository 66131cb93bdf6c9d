//! Diagnostics: what the translation has to report besides the text.
//!
//! A diagnostic never changes the text. The translation appends it to a log
//! that the caller hands in and may print, store or drop.

use vstd::prelude::*;
use vstd::string::*;

verus! {

/// How much a diagnostic matters.
#[derive(Clone, Copy, Debug, PartialEq, Eq, Structural)]
pub enum Severity {
    /// Worth a note: nothing is wrong.
    Info,
    /// Worth a look: the comment or the index may be wrong.
    Warning,
}

/// What a diagnostic is about.
#[derive(Clone, Copy, Debug, PartialEq, Eq, Structural)]
pub enum Problem {
    /// A function reference names a function that no table holds.
    FunctionNotFound,
    /// A type reference with a member names no method of such a type.
    MethodNotFound,
    /// A reference names neither a type nor a member nor a constant.
    SymbolNotFound,
    /// A reference marked as a type names a member or a constant.
    NotAType,
}

/// One thing to report.
pub struct Diagnostic {
    pub severity: Severity,
    pub problem: Problem,
    /// The identifier that was looked up.
    pub symbol: String,
    /// The member that was looked up under it, if any.
    pub member: Option<String>,
}

/// The model of a `Diagnostic`.
pub struct DiagnosticView {
    pub severity: Severity,
    pub problem: Problem,
    pub symbol: Seq<char>,
    pub member: Option<Seq<char>>,
}

impl View for Diagnostic {
    type V = DiagnosticView;

    open spec fn view(&self) -> DiagnosticView {
        DiagnosticView {
            severity: self.severity,
            problem: self.problem,
            symbol: self.symbol@,
            member: match self.member {
                Some(m) => Some(m@),
                None => None,
            },
        }
    }
}

/// The line that says what a diagnostic is about.
pub open spec fn message_text(diagnostic: DiagnosticView) -> Seq<char> {
    match diagnostic.problem {
        Problem::FunctionNotFound => "Function `"@ + diagnostic.symbol + "` was not found"@,
        Problem::MethodNotFound => "Method `"@ + (match diagnostic.member {
            Some(member) => member,
            None => Seq::empty(),
        }) + "` of type `"@ + diagnostic.symbol + "` was not found"@,
        Problem::SymbolNotFound => "Type, constant or member `"@ + diagnostic.symbol
            + "` was not found"@,
        Problem::NotAType => "`"@ + diagnostic.symbol
            + "` is marked as a type (`#`) but is a constant or a member (`%`)"@,
    }
}

impl Diagnostic {
    /// The line that says what the diagnostic is about.
    pub fn message(&self) -> (out: String)
        ensures
            out@ == message_text(self@),
    {
        match self.problem {
            Problem::FunctionNotFound => {
                let mut out = String::from_str("Function `");
                out.append(self.symbol.as_str());
                out.append("` was not found");
                out
            },
            Problem::MethodNotFound => {
                let mut out = String::from_str("Method `");
                match &self.member {
                    Some(member) => {
                        out.append(member.as_str());
                    },
                    None => {
                        assert(out@ + Seq::<char>::empty() =~= out@);
                    },
                }
                out.append("` of type `");
                out.append(self.symbol.as_str());
                out.append("` was not found");
                out
            },
            Problem::SymbolNotFound => {
                let mut out = String::from_str("Type, constant or member `");
                out.append(self.symbol.as_str());
                out.append("` was not found");
                out
            },
            Problem::NotAType => {
                let mut out = String::from_str("`");
                out.append(self.symbol.as_str());
                out.append("` is marked as a type (`#`) but is a constant or a member (`%`)");
                out
            },
        }
    }
}

/// The diagnostics of one documentation comment, oldest first.
pub struct DiagnosticLog {
    /// The item that the comment belongs to.
    pub in_type: String,
    pub entries: Vec<Diagnostic>,
}

/// The model of a `DiagnosticLog`.
pub struct LogView {
    pub in_type: Seq<char>,
    pub entries: Seq<DiagnosticView>,
}

impl LogView {
    /// The log with `notes` added at its end.
    pub open spec fn with(self, notes: Seq<DiagnosticView>) -> LogView {
        LogView { in_type: self.in_type, entries: self.entries + notes }
    }
}

impl View for DiagnosticLog {
    type V = LogView;

    open spec fn view(&self) -> LogView {
        LogView { in_type: self.in_type@, entries: self.entries@.map_values(|d: Diagnostic| d@) }
    }
}

/// Adding nothing leaves a log as it is.
pub proof fn lemma_with_nothing(log: LogView)
    ensures
        log.with(Seq::empty()) == log,
{
    assert(log.entries + Seq::<DiagnosticView>::empty() =~= log.entries);
}

/// Adding to a log twice is adding both at once.
pub proof fn lemma_with_with(log: LogView, first: Seq<DiagnosticView>, second: Seq<DiagnosticView>)
    ensures
        log.with(first).with(second) == log.with(first + second),
{
    assert((log.entries + first) + second =~= log.entries + (first + second));
}

/// A warning about `symbol`.
pub open spec fn warning(problem: Problem, symbol: Seq<char>) -> DiagnosticView {
    DiagnosticView { severity: Severity::Warning, problem, symbol, member: None }
}

impl DiagnosticLog {
    /// An empty log for the comment of `in_type`.
    pub fn new(in_type: &str) -> (log: DiagnosticLog)
        ensures
            log@ == (LogView { in_type: in_type@, entries: Seq::empty() }),
    {
        let log = DiagnosticLog { in_type: String::from_str(in_type), entries: Vec::new() };
        assert(log@.entries =~= Seq::empty());
        log
    }

    /// Appends one diagnostic.
    pub fn record(&mut self, severity: Severity, problem: Problem, symbol: &str, member: Option<&str>)
        ensures
            final(self)@ == old(self)@.with(
                seq![
                    DiagnosticView {
                        severity,
                        problem,
                        symbol: symbol@,
                        member: match member {
                            Some(m) => Some(m@),
                            None => None,
                        },
                    },
                ],
            ),
    {
        let member = match member {
            Some(m) => Some(String::from_str(m)),
            None => None,
        };
        let entry = Diagnostic { severity, problem, symbol: String::from_str(symbol), member };
        self.entries.push(entry);
        assert(self@.entries =~= old(self)@.entries + seq![entry@]);
    }
}

} // verus!
