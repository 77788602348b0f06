//! The one-wire ambient thermometer: how the report of its driver is read.

use crate::text::{
    chars_of, contains, contains_text, find_after_last, find_first, first_index, last_index,
};
use vstd::prelude::*;
use vstd::string::StrSliceExecFns;

verus! {

/// Configuration of the ambient thermometer.
#[derive(Clone, Debug)]
pub struct Descriptor {
    /// Bus id of the probe.
    pub id: String,
}

/// The first line of `report`, without its line break.
pub open spec fn first_line(report: Seq<char>) -> Seq<char> {
    report.take(first_index(report, '\n'))
}

/// What follows the last line break of `report`; all of it when it has
/// none.
pub open spec fn last_line(report: Seq<char>) -> Seq<char> {
    report.skip(last_index(report, '\n') + 1)
}

/// The reading a driver report carries. The first line must confirm the
/// checksum with the word `YES`; the reading is then what follows the last
/// `=` of the last line, or the whole last line when it has no `=`.
pub open spec fn report_value(report: Seq<char>) -> Option<Seq<char>> {
    if contains_text(first_line(report), "YES"@) {
        let line = last_line(report);
        Some(line.skip(last_index(line, '=') + 1))
    } else {
        None
    }
}

/// Cuts the reading, in thousandths of a degree, out of a driver report;
/// `None` when the report does not confirm the checksum.
pub fn reading_field<'a>(report: &'a str) -> (field: Option<&'a str>)
    ensures
        (match field {
            Some(value) => report_value(report@) == Some(value@),
            None => report_value(report@).is_none(),
        }),
{
    let chars = chars_of(report);
    let n = chars.len();
    proof {
        assert(chars@.subrange(0, n as int) =~= chars@);
    }
    let first_end = find_first(&chars, 0, n, '\n');
    let confirmation = chars_of("YES");
    proof {
        assert(chars@.subrange(0, first_end as int) =~= first_line(report@));
    }
    if !contains(&chars, 0, first_end, &confirmation) {
        return None;
    }
    let line_start = find_after_last(&chars, 0, n, '\n');
    let value_start = find_after_last(&chars, line_start, n, '=');
    proof {
        let line = last_line(report@);
        assert(line =~= chars@.subrange(line_start as int, n as int));
        assert(line.skip(value_start - line_start) =~= report@.subrange(
            value_start as int,
            n as int,
        ));
    }
    Some(report.substring_char(value_start, n))
}

} // verus!
