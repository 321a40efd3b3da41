//! Which lines an operation may touch.
use vstd::prelude::*;

use crate::error;
use crate::error::RipsedError;
use crate::operation;
use crate::operation::{LineRange, RangeSpec, RangeView};
use crate::rex;
use crate::rex::error_text;
use crate::strings::owned;

verus! {

/// Whether a range admits a line, given whether a region is open before it.
/// The boundary lines of a region are inside it.
pub open spec fn admits(range: Option<RangeView>, active: bool, line_num: int, line: Seq<char>) -> bool {
    match range {
        None => true,
        Some(RangeView::Lines(r)) => operation::line_in_range(r, line_num),
        Some(RangeView::Patterns { start, .. }) => active || rex::regex_matches(start, line),
    }
}

/// Whether a region is open behind a line. The end pattern is tested only on
/// lines behind the one that opened the region, and an unclosed region goes on.
pub open spec fn active_after(range: Option<RangeView>, active: bool, line: Seq<char>) -> bool {
    match range {
        Some(RangeView::Patterns { start, end }) => if active {
            !rex::regex_matches(end, line)
        } else {
            rex::regex_matches(start, line)
        },
        _ => active,
    }
}

/// The error of a range pattern that does not compile.
pub open spec fn bad_range_pattern(which: Seq<char>, source: Seq<char>, e: regex::Error) -> error::ErrorView {
    error::ErrorView {
        operation_index: None,
        message: "Range "@ + which + " pattern failed to compile: "@ + rex::regex_error_text(e)
            + "."@,
        ..error::invalid_regex_error(0, source, rex::regex_error_text(e))
    }
}

/// The error that a range ends in, where one of its patterns does not compile;
/// the start pattern is compiled first.
pub open spec fn range_error(range: Option<RangeView>) -> Option<error::ErrorView> {
    match range {
        Some(RangeView::Patterns { start, end }) => match rex::regex_compile_error(start) {
            Some(e) => Some(bad_range_pattern("start"@, start, e)),
            None => match rex::regex_compile_error(end) {
                Some(e) => Some(bad_range_pattern("end"@, end, e)),
                None => None,
            },
        },
        _ => None,
    }
}

/// Stateful line filter for a range.
///
/// Pattern ranges follow sed's `/start/,/end/`: a region opens on a line that
/// matches the start pattern, the end pattern is tested on later lines only,
/// boundary lines are inside, and an unclosed region runs to the end.
#[derive(Debug)]
pub enum RangeFilter {
    All,
    Lines(LineRange),
    Patterns { start: regex::Regex, end: regex::Regex, active: bool },
}

/// Compiles one pattern of a range.
fn compile(which: &str, source: &str) -> (r: Result<regex::Regex, RipsedError>)
    ensures
        match r {
            Ok(re) => rex::regex_compile_error(source@) is None && rex::regex_source(re) == source@,
            Err(err) => rex::regex_compile_error(source@) matches Some(e) && err@
                == bad_range_pattern(which@, source@, e),
        },
{
    match regex::Regex::new(source) {
        Ok(re) => Ok(re),
        Err(e) => {
            let text = error_text(&e);
            let mut err = RipsedError::invalid_regex(0, source, text.as_str());
            err.operation_index = None;
            let mut message = owned("Range ");
            message.append(which);
            message.append(" pattern failed to compile: ");
            message.append(text.as_str());
            message.append(".");
            err.message = message;
            Err(err)
        },
    }
}

impl RangeFilter {
    /// The range that is filtered by.
    pub open spec fn range(self) -> Option<RangeView> {
        match self {
            RangeFilter::All => None,
            RangeFilter::Lines(r) => Some(RangeView::Lines(r)),
            RangeFilter::Patterns { start, end, .. } => Some(
                RangeView::Patterns { start: rex::regex_source(start), end: rex::regex_source(end) },
            ),
        }
    }

    /// Whether a region is open.
    pub open spec fn active(self) -> bool {
        match self {
            RangeFilter::Patterns { active, .. } => active,
            _ => false,
        }
    }

    /// A filter at the start of a text.
    pub fn new(range: &Option<RangeSpec>) -> (r: Result<RangeFilter, RipsedError>)
        ensures
            match r {
                Ok(f) => range_error(operation::range_view(*range)) is None && f.range()
                    == operation::range_view(*range) && !f.active(),
                Err(e) => range_error(operation::range_view(*range)) == Some(e@),
            },
    {
        match range {
            None => Ok(RangeFilter::All),
            Some(RangeSpec::Lines(lines)) => Ok(RangeFilter::Lines(*lines)),
            Some(RangeSpec::Patterns(patterns)) => {
                let start = match compile("start", patterns.start_pattern.as_str()) {
                    Ok(re) => re,
                    Err(e) => {
                        return Err(e);
                    },
                };
                let end = match compile("end", patterns.end_pattern.as_str()) {
                    Ok(re) => re,
                    Err(e) => {
                        return Err(e);
                    },
                };
                Ok(RangeFilter::Patterns { start, end, active: false })
            },
        }
    }

    /// Whether the operation applies to this line. To be called once per line,
    /// in order.
    pub fn admits(&mut self, line_num: usize, line: &str) -> (b: bool)
        ensures
            b == admits(old(self).range(), old(self).active(), line_num as int, line@),
            final(self).range() == old(self).range(),
            final(self).active() == active_after(old(self).range(), old(self).active(), line@),
    {
        match self {
            RangeFilter::All => true,
            RangeFilter::Lines(range) => range.contains(line_num),
            RangeFilter::Patterns { start, end, active } => {
                if *active {
                    if end.is_match(line) {
                        *active = false;
                    }
                    true
                } else if start.is_match(line) {
                    *active = true;
                    true
                } else {
                    false
                }
            },
        }
    }
}

} // verus!
