//! Reports sent to the administrators.
use vstd::prelude::*;

use crate::common::error::{char_count, FieldError};

verus! {

/// A report: the application and category it is about, its title and its text.
pub struct Post {
    pub app_name: String,
    pub category: String,
    pub title: String,
    pub body: String,
}

/// The message of a field longer than 32 characters.
pub const MAX_32_MESSAGE: &'static str = "32文字以内で入力してください";
/// The message of a text shorter than 8 or longer than 4096 characters.
pub const BODY_LENGTH_MESSAGE: &'static str = "8文字以上4096文字以内で入力してください";

/// The error of a field of `len` characters outside `min..=max`, if it is outside.
pub open spec fn range_error(len: nat, min: nat, max: nat, field: &'static str, message: &'static str) -> Seq<FieldError> {
    if len < min || len > max {
        seq![FieldError { field, message }]
    } else {
        Seq::empty()
    }
}

/// The rules a report breaks, field by field: application, category and title at most 32
/// characters, the text between 8 and 4096.
pub open spec fn report_errors(p: Post) -> Seq<FieldError> {
    range_error(p.app_name@.len(), 0, 32, "app_name", MAX_32_MESSAGE) + range_error(
        p.category@.len(),
        0,
        32,
        "category",
        MAX_32_MESSAGE,
    ) + range_error(p.title@.len(), 0, 32, "title", MAX_32_MESSAGE) + range_error(
        p.body@.len(),
        8,
        4096,
        "body",
        BODY_LENGTH_MESSAGE,
    )
}

fn push_range_error(
    errors: &mut Vec<FieldError>,
    s: &str,
    min: usize,
    max: usize,
    field: &'static str,
    message: &'static str,
)
    ensures
        final(errors)@ == old(errors)@ + range_error(s@.len(), min as nat, max as nat, field, message),
{
    let n = char_count(s);
    if n < min || n > max {
        errors.push(FieldError { field, message });
        assert(final(errors)@ =~= old(errors)@ + range_error(s@.len(), min as nat, max as nat, field, message));
    } else {
        assert(errors@ =~= old(errors)@ + range_error(s@.len(), min as nat, max as nat, field, message));
    }
}

impl Post {
    /// Checks the lengths of the fields: the rules broken, in the order of the fields.
    pub fn validate(&self) -> (r: Result<(), Vec<FieldError>>)
        ensures
            match r {
                Ok(()) => report_errors(*self).len() == 0,
                Err(v) => v@ == report_errors(*self) && v@.len() > 0,
            },
    {
        let mut errors: Vec<FieldError> = Vec::new();
        push_range_error(&mut errors, self.app_name.as_str(), 0, 32, "app_name", MAX_32_MESSAGE);
        push_range_error(&mut errors, self.category.as_str(), 0, 32, "category", MAX_32_MESSAGE);
        push_range_error(&mut errors, self.title.as_str(), 0, 32, "title", MAX_32_MESSAGE);
        push_range_error(&mut errors, self.body.as_str(), 8, 4096, "body", BODY_LENGTH_MESSAGE);
        assert(errors@ =~= report_errors(*self));
        if errors.len() == 0 {
            Ok(())
        } else {
            Err(errors)
        }
    }

    /// What the report is filed under and its text: the application and category separated
    /// by a space, and the title followed by the text.
    pub fn record(&self) -> (r: (String, String))
        ensures
            r.0@ == self.app_name@ + " "@ + self.category@,
            r.1@ == self.title@ + self.body@,
    {
        let mut tag = self.app_name.clone();
        tag.append(" ");
        tag.append(self.category.as_str());
        let mut body = self.title.clone();
        body.append(self.body.as_str());
        (tag, body)
    }
}

/// The listing of every report, with the name of its user and whether it has been checked.
pub const ALL_REPORTS_SQL: &'static str = "SELECT r.id,r.timestamp,u.name AS user,r.tag,r.body,r.checked FROM report r JOIN user u ON r.user=u.id";

/// The listing of the reports not yet checked, each marked as unchecked.
pub const UNCHECKED_REPORTS_SQL: &'static str = "SELECT r.id,r.timestamp,u.name AS user,r.tag,r.body,FALSE AS checked FROM report r JOIN user u ON r.user=u.id WHERE checked=FALSE";

/// The SQL that lists the reports: those not yet checked when `ignore_checked` holds, all
/// of them otherwise. It binds nothing.
pub fn reports_sql(ignore_checked: bool) -> (r: &'static str)
    ensures
        r@ == (if ignore_checked {
            UNCHECKED_REPORTS_SQL@
        } else {
            ALL_REPORTS_SQL@
        }),
{
    if ignore_checked {
        UNCHECKED_REPORTS_SQL
    } else {
        ALL_REPORTS_SQL
    }
}

} // verus!
