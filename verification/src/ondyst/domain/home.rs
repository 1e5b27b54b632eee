//! The home of a character: the changes to its settings.
use vstd::prelude::*;

use crate::common::error::{char_count, FieldError, HttpError, BAD_REQUEST};
use crate::common::query::{
    lemma_mark_count_add, lemma_mark_count_none, lemma_marks_count, mark_count, query_args, query_bind_int, query_bind_text, query_new, query_open, query_push, query_sql, SqlArg,
    SqlQuery,
};
use crate::ondyst::util::state::{open_check, State};
use crate::text::{
    join_with, lemma_split_join, lemma_split_on, lemma_split_parts_plain, lemma_trim_facts, push_range,
    split_chars, split_on, str_chars, string_from_chars, trim, trim_end, trim_range, trim_start,
};

verus! {

// ---------------------------------------------------------------------------
// Lists of lines
// ---------------------------------------------------------------------------

/// The lines of `parts` trimmed, the empty ones left out.
pub open spec fn kept_lines(parts: Seq<Seq<char>>) -> Seq<Seq<char>>
    decreases parts.len(),
{
    if parts.len() == 0 {
        Seq::empty()
    } else {
        kept_lines(parts.drop_last()) + (if trim(parts.last()).len() > 0 {
            seq![trim(parts.last())]
        } else {
            Seq::empty()
        })
    }
}

/// A list written one item per line, tidied: each line trimmed, the empty ones left out
/// (a `\r` before a line feed is trimmed with the rest of the white space).
pub open spec fn spec_format_list(v: Seq<char>) -> Seq<char> {
    join_with(kept_lines(split_on(v, '\n')), seq!['\n'])
}

/// The list tidied (see [`spec_format_list`]).
pub fn format_list(v: &str) -> (r: String)
    ensures
        r@ == spec_format_list(v@),
{
    let chars = str_chars(v);
    let parts = split_chars(&chars, '\n');
    let ghost all = split_on(v@, '\n');
    let mut out: Vec<char> = Vec::new();
    let mut k: usize = 0;
    let mut count: usize = 0;
    assert(all.subrange(0, 0) =~= Seq::<Seq<char>>::empty());
    while k < parts.len()
        invariant
            all == split_on(v@, '\n'),
            parts@.len() == all.len(),
            forall|j: int| 0 <= j < parts@.len() ==> #[trigger] parts@[j]@ == all[j],
            0 <= k <= parts@.len(),
            count <= k,
            count == kept_lines(all.subrange(0, k as int)).len(),
            out@ == join_with(kept_lines(all.subrange(0, k as int)), seq!['\n']),
        decreases parts.len() - k,
    {
        let ghost pre = all.subrange(0, k as int);
        let ghost next = all.subrange(0, k + 1);
        assert(next.drop_last() =~= pre);
        assert(next.last() == parts@[k as int]@);
        let line = &parts[k];
        let (a, b) = trim_range(line, 0, line.len());
        assert(line@.subrange(0, line@.len() as int) =~= line@);
        if a < b {
            let ghost kept = kept_lines(pre);
            if count > 0 {
                out.push('\n');
            }
            push_range(&mut out, line, a, b);
            proof {
                let t = line@.subrange(a as int, b as int);
                assert(kept_lines(next) == kept.push(t)) by {
                    assert(kept + seq![t] =~= kept.push(t));
                }
                if count == 0 {
                    assert(kept.len() == 0);
                    assert(kept.push(t) =~= seq![t]);
                    assert(out@ =~= join_with(kept.push(t), seq!['\n']));
                } else {
                    assert(kept.push(t).drop_last() =~= kept);
                    assert(out@ =~= join_with(kept.push(t), seq!['\n']));
                }
            }
            count = count + 1;
        } else {
            assert(kept_lines(next) =~= kept_lines(pre));
        }
        k = k + 1;
    }
    assert(all.subrange(0, all.len() as int) =~= all);
    string_from_chars(out)
}

/// Every kept line is the trimmed form of a line of `parts`, and is not empty.
proof fn lemma_kept_lines_origin(parts: Seq<Seq<char>>)
    ensures
        forall|k: int| 0 <= k < kept_lines(parts).len() ==> kept_lines(parts)[k].len() > 0 && exists|j: int|
            0 <= j < parts.len() && #[trigger] kept_lines(parts)[k] == trim(parts[j]),
    decreases parts.len(),
{
    if parts.len() > 0 {
        let init = parts.drop_last();
        lemma_kept_lines_origin(init);
        let prev = kept_lines(init);
        assert forall|k: int| 0 <= k < kept_lines(parts).len() implies kept_lines(parts)[k].len() > 0
            && exists|j: int| 0 <= j < parts.len() && #[trigger] kept_lines(parts)[k] == trim(parts[j]) by {
            if k < prev.len() {
                assert(kept_lines(parts)[k] == prev[k]);
                let j = choose|j: int| 0 <= j < init.len() && #[trigger] prev[k] == trim(init[j]);
                assert(init[j] == parts[j]);
            } else {
                assert(kept_lines(parts)[k] == trim(parts.last()));
                assert(parts.last() == parts[parts.len() - 1]);
            }
        }
    }
}

/// Lines that are trimmed already and not empty are kept as they are.
proof fn lemma_kept_lines_fixed(parts: Seq<Seq<char>>)
    requires
        forall|k: int| 0 <= k < parts.len() ==> (#[trigger] parts[k]).len() > 0 && trim(parts[k]) == parts[k],
    ensures
        kept_lines(parts) == parts,
    decreases parts.len(),
{
    if parts.len() > 0 {
        let init = parts.drop_last();
        assert forall|k: int| 0 <= k < init.len() implies (#[trigger] init[k]).len() > 0 && trim(init[k]) == init[k] by {
            assert(init[k] == parts[k]);
        }
        lemma_kept_lines_fixed(init);
        assert(trim(parts.last()) == parts[parts.len() - 1]);
        assert(init + seq![parts.last()] =~= parts);
    }
}

/// Tidying a tidied list changes nothing.
pub proof fn lemma_format_list_idempotent(v: Seq<char>)
    ensures
        spec_format_list(spec_format_list(v)) == spec_format_list(v),
{
    let parts = split_on(v, '\n');
    let kept = kept_lines(parts);
    let f = spec_format_list(v);
    assert(f == join_with(kept, seq!['\n']));
    lemma_split_parts_plain(v, '\n');
    lemma_kept_lines_origin(parts);
    assert forall|k: int| 0 <= k < kept.len() implies (#[trigger] kept[k]).len() > 0 && trim(kept[k]) == kept[k]
        && !kept[k].contains('\n') by {
        let j = choose|j: int| 0 <= j < parts.len() && #[trigger] kept[k] == trim(parts[j]);
        lemma_trim_facts(parts[j]);
        let (a, m) = choose|a: int, m: int| 0 <= a <= m <= parts[j].len() && trim(parts[j]) == parts[j].subrange(a, m);
        assert(!parts[j].contains('\n'));
        if kept[k].contains('\n') {
            let x = choose|x: int| 0 <= x < kept[k].len() && kept[k][x] == '\n';
            assert(parts[j][a + x] == '\n');
        }
    }
    if kept.len() == 0 {
        assert(f == Seq::<char>::empty());
        assert(split_on(f, '\n') == seq![Seq::<char>::empty()]);
        assert(trim(Seq::<char>::empty()) == Seq::<char>::empty());
        let one = seq![Seq::<char>::empty()];
        assert(one.drop_last() =~= Seq::<Seq<char>>::empty());
        assert(one.last() == Seq::<char>::empty());
        assert(trim_start(one.last()) == Seq::<char>::empty());
        assert(trim_end(Seq::<char>::empty()) == Seq::<char>::empty());
        assert(trim(one.last()).len() == 0);
        assert(kept_lines(Seq::<Seq<char>>::empty()) == Seq::<Seq<char>>::empty());
        assert(kept_lines(one) == kept_lines(one.drop_last()) + Seq::<Seq<char>>::empty());
        assert(kept_lines(one) =~= Seq::<Seq<char>>::empty());
    } else {
        lemma_split_join(kept, '\n');
        lemma_kept_lines_fixed(kept);
    }
}

// ---------------------------------------------------------------------------
// Settings
// ---------------------------------------------------------------------------

/// A change of a character's settings: the fields given are changed.
pub struct Setting {
    pub name: Option<String>,
    pub comment: Option<String>,
    pub profile: Option<String>,
    pub icon_list: Option<String>,
    pub portrait_list: Option<String>,
    pub ho_title: Option<String>,
    pub ho_body: Option<String>,
}

/// The rule a field breaks when it is longer than `max` characters, if it does.
pub open spec fn opt_length_error(s: Option<String>, max: nat, field: &'static str, message: &'static str) -> Seq<FieldError> {
    match s {
        Some(v) => if v@.len() > max {
            seq![FieldError { field, message }]
        } else {
            Seq::empty()
        },
        None => Seq::empty(),
    }
}

/// The message of a change that changes nothing.
pub const EMPTY_SETTING_MESSAGE: &'static str = "少なくとも1つの項目を変更してください";
/// The message of a change of the handout while the site runs.
pub const HANDOUT_LOCKED_MESSAGE: &'static str = "開催中はハンドアウトを変更できません";

/// Whether the change gives at least one field.
pub open spec fn any_some_spec(v: Setting) -> bool {
    v.name is Some || v.comment is Some || v.profile is Some || v.icon_list is Some || v.portrait_list
        is Some || v.ho_title is Some || v.ho_body is Some
}

/// The length rules a change breaks, field by field.
pub open spec fn setting_field_errors(v: Setting) -> Seq<FieldError> {
    opt_length_error(v.name, 16, "name", "16文字以内で入力してください") + opt_length_error(
        v.comment,
        24,
        "comment",
        "24文字以内で入力してください",
    ) + opt_length_error(v.profile, 8192, "profile", "8192文字以内で入力してください")
        + opt_length_error(v.icon_list, 8192, "icon_list", "合計8192文字以内にしてください")
        + opt_length_error(v.portrait_list, 4096, "portrait_list", "合計4096文字以内にしてください")
        + opt_length_error(v.ho_title, 26, "ho_title", "26文字以内で入力してください")
        + opt_length_error(v.ho_body, 52, "ho_body", "52文字以内で入力してください")
}

/// The rules a change breaks: the length rules; when it breaks none of them, the rule that
/// it changes something.
pub open spec fn setting_errors(v: Setting) -> Seq<FieldError> {
    if setting_field_errors(v).len() > 0 {
        setting_field_errors(v)
    } else if !any_some_spec(v) {
        seq![FieldError { field: "__all__", message: EMPTY_SETTING_MESSAGE }]
    } else {
        Seq::empty()
    }
}

fn push_opt_length_error(
    errors: &mut Vec<FieldError>,
    s: &Option<String>,
    max: usize,
    field: &'static str,
    message: &'static str,
)
    ensures
        final(errors)@ == old(errors)@ + opt_length_error(*s, max as nat, field, message),
{
    match s {
        Some(v) => {
            if char_count(v.as_str()) > max {
                errors.push(FieldError { field, message });
                assert(final(errors)@ =~= old(errors)@ + opt_length_error(*s, max as nat, field, message));
            } else {
                assert(errors@ =~= old(errors)@ + opt_length_error(*s, max as nat, field, message));
            }
        },
        None => {
            assert(errors@ =~= old(errors)@ + opt_length_error(*s, max as nat, field, message));
        },
    }
}

/// Whether the change gives at least one field; the rule of an empty change otherwise.
pub fn any_some(v: &Setting) -> (r: Result<(), FieldError>)
    ensures
        r is Ok <==> any_some_spec(*v),
        r matches Err(e) ==> e.field == "__all__" && e.message == EMPTY_SETTING_MESSAGE,
{
    if v.name.is_some() || v.comment.is_some() || v.profile.is_some() || v.icon_list.is_some()
        || v.portrait_list.is_some() || v.ho_title.is_some() || v.ho_body.is_some() {
        Ok(())
    } else {
        Err(FieldError { field: "__all__", message: EMPTY_SETTING_MESSAGE })
    }
}

impl Setting {
    /// Checks the change: the rules it breaks (see [`setting_errors`]).
    pub fn validate(&self) -> (r: Result<(), Vec<FieldError>>)
        ensures
            match r {
                Ok(()) => setting_errors(*self).len() == 0,
                Err(v) => v@ == setting_errors(*self) && v@.len() > 0,
            },
    {
        let mut errors: Vec<FieldError> = Vec::new();
        push_opt_length_error(&mut errors, &self.name, 16, "name", "16文字以内で入力してください");
        push_opt_length_error(&mut errors, &self.comment, 24, "comment", "24文字以内で入力してください");
        push_opt_length_error(&mut errors, &self.profile, 8192, "profile", "8192文字以内で入力してください");
        push_opt_length_error(&mut errors, &self.icon_list, 8192, "icon_list", "合計8192文字以内にしてください");
        push_opt_length_error(
            &mut errors,
            &self.portrait_list,
            4096,
            "portrait_list",
            "合計4096文字以内にしてください",
        );
        push_opt_length_error(&mut errors, &self.ho_title, 26, "ho_title", "26文字以内で入力してください");
        push_opt_length_error(&mut errors, &self.ho_body, 52, "ho_body", "52文字以内で入力してください");
        assert(errors@ =~= setting_field_errors(*self));
        if errors.len() > 0 {
            return Err(errors);
        }
        match any_some(self) {
            Ok(()) => Ok(()),
            Err(e) => {
                let mut v: Vec<FieldError> = Vec::new();
                v.push(e);
                assert(v@ =~= setting_errors(*self));
                Err(v)
            },
        }
    }
}

// ---------------------------------------------------------------------------
// The update of the settings
// ---------------------------------------------------------------------------

/// Why a change of settings is refused: the stage of the site or the handout lock, or the
/// rules it breaks.
pub enum SettingRefusal {
    Refused(HttpError),
    Invalid(Vec<FieldError>),
}

/// The column to set to a given value, if the value is given.
pub open spec fn opt_pair(col: Seq<char>, s: Option<String>) -> Seq<(Seq<char>, Seq<char>)> {
    match s {
        Some(v) => seq![(col, v@)],
        None => Seq::empty(),
    }
}

/// The column to set to a given list, tidied, if the list is given.
pub open spec fn opt_list_pair(col: Seq<char>, s: Option<String>) -> Seq<(Seq<char>, Seq<char>)> {
    match s {
        Some(v) => seq![(col, spec_format_list(v@))],
        None => Seq::empty(),
    }
}

/// The columns a change sets, with their values, in the order of the fields; the lists of
/// icons and portraits tidied.
pub open spec fn setting_pairs(v: Setting) -> Seq<(Seq<char>, Seq<char>)> {
    opt_pair("name="@, v.name) + opt_pair("comment="@, v.comment) + opt_pair("profile="@, v.profile)
        + opt_list_pair("icon_list="@, v.icon_list) + opt_list_pair("portrait_list="@, v.portrait_list)
        + opt_pair("ho_title="@, v.ho_title) + opt_pair("ho_body="@, v.ho_body)
}

/// The assignments of the columns, separated by commas, each value a placeholder.
pub open spec fn assign_sql(pairs: Seq<(Seq<char>, Seq<char>)>) -> Seq<char>
    decreases pairs.len(),
{
    if pairs.len() == 0 {
        Seq::empty()
    } else if pairs.len() == 1 {
        pairs[0].0 + "?"@
    } else {
        assign_sql(pairs.drop_last()) + ","@ + pairs.last().0 + "?"@
    }
}

/// The values bound to the assignments.
pub open spec fn assign_args(pairs: Seq<(Seq<char>, Seq<char>)>) -> Seq<SqlArg> {
    pairs.map_values(|p: (Seq<char>, Seq<char>)| SqlArg::Text(p.1))
}

/// The columns that `pairs` sets, in order.
pub open spec fn pair_columns(pairs: Seq<(Seq<char>, Seq<char>)>) -> Seq<Seq<char>> {
    pairs.map_values(|p: (Seq<char>, Seq<char>)| p.0)
}

/// The assignments are fixed by the columns alone; the values never enter the SQL.
pub proof fn lemma_assign_sql_columns(a: Seq<(Seq<char>, Seq<char>)>, b: Seq<(Seq<char>, Seq<char>)>)
    requires
        pair_columns(a) == pair_columns(b),
    ensures
        assign_sql(a) == assign_sql(b),
    decreases a.len(),
{
    assert(a.len() == pair_columns(a).len());
    assert(b.len() == pair_columns(b).len());
    if a.len() > 1 {
        assert(pair_columns(a.drop_last()) =~= pair_columns(a).drop_last());
        assert(pair_columns(b.drop_last()) =~= pair_columns(b).drop_last());
        lemma_assign_sql_columns(a.drop_last(), b.drop_last());
        assert(a.last().0 == pair_columns(a)[a.len() - 1]);
        assert(b.last().0 == pair_columns(b)[b.len() - 1]);
    } else if a.len() == 1 {
        assert(a[0].0 == pair_columns(a)[0]);
        assert(b[0].0 == pair_columns(b)[0]);
    }
}

/// The SQL of an update of settings is fixed by which fields the change gives; what they are
/// set to is bound, never written into the SQL.
pub proof fn lemma_setting_sql_shape(a: Setting, b: Setting)
    requires
        (a.name is Some) == (b.name is Some),
        (a.comment is Some) == (b.comment is Some),
        (a.profile is Some) == (b.profile is Some),
        (a.icon_list is Some) == (b.icon_list is Some),
        (a.portrait_list is Some) == (b.portrait_list is Some),
        (a.ho_title is Some) == (b.ho_title is Some),
        (a.ho_body is Some) == (b.ho_body is Some),
    ensures
        assign_sql(setting_pairs(a)) == assign_sql(setting_pairs(b)),
{
    let a1 = opt_pair("name="@, a.name);
    let a2 = opt_pair("comment="@, a.comment);
    let a3 = opt_pair("profile="@, a.profile);
    let a4 = opt_list_pair("icon_list="@, a.icon_list);
    let a5 = opt_list_pair("portrait_list="@, a.portrait_list);
    let a6 = opt_pair("ho_title="@, a.ho_title);
    let a7 = opt_pair("ho_body="@, a.ho_body);
    let b1 = opt_pair("name="@, b.name);
    let b2 = opt_pair("comment="@, b.comment);
    let b3 = opt_pair("profile="@, b.profile);
    let b4 = opt_list_pair("icon_list="@, b.icon_list);
    let b5 = opt_list_pair("portrait_list="@, b.portrait_list);
    let b6 = opt_pair("ho_title="@, b.ho_title);
    let b7 = opt_pair("ho_body="@, b.ho_body);
    assert(pair_columns(a1) =~= pair_columns(b1));
    assert(pair_columns(a2) =~= pair_columns(b2));
    assert(pair_columns(a3) =~= pair_columns(b3));
    assert(pair_columns(a4) =~= pair_columns(b4));
    assert(pair_columns(a5) =~= pair_columns(b5));
    assert(pair_columns(a6) =~= pair_columns(b6));
    assert(pair_columns(a7) =~= pair_columns(b7));
    lemma_columns_add(a1, a2);
    lemma_columns_add(b1, b2);
    lemma_columns_add(a1 + a2, a3);
    lemma_columns_add(b1 + b2, b3);
    lemma_columns_add(a1 + a2 + a3, a4);
    lemma_columns_add(b1 + b2 + b3, b4);
    lemma_columns_add(a1 + a2 + a3 + a4, a5);
    lemma_columns_add(b1 + b2 + b3 + b4, b5);
    lemma_columns_add(a1 + a2 + a3 + a4 + a5, a6);
    lemma_columns_add(b1 + b2 + b3 + b4 + b5, b6);
    lemma_columns_add(a1 + a2 + a3 + a4 + a5 + a6, a7);
    lemma_columns_add(b1 + b2 + b3 + b4 + b5 + b6, b7);
    lemma_assign_sql_columns(setting_pairs(a), setting_pairs(b));
}

/// Whether no column of `pairs` holds a placeholder.
pub open spec fn columns_free(pairs: Seq<(Seq<char>, Seq<char>)>) -> bool {
    forall|i: int| 0 <= i < pairs.len() ==> mark_count(#[trigger] pairs[i].0) == 0
}

/// Assignments to columns without placeholders hold one placeholder each.
pub proof fn lemma_assign_marks(pairs: Seq<(Seq<char>, Seq<char>)>)
    requires
        columns_free(pairs),
    ensures
        mark_count(assign_sql(pairs)) == pairs.len(),
    decreases pairs.len(),
{
    reveal_strlit("?");
    reveal_strlit(",");
    lemma_marks_count(1);
    lemma_mark_count_none(","@);
    if pairs.len() == 1 {
        assert(mark_count(pairs[0].0) == 0);
        lemma_mark_count_add(pairs[0].0, "?"@);
    } else if pairs.len() > 1 {
        let rest = pairs.drop_last();
        assert forall|i: int| 0 <= i < rest.len() implies mark_count(#[trigger] rest[i].0) == 0 by {
            assert(rest[i] == pairs[i]);
        }
        lemma_assign_marks(rest);
        let a = assign_sql(rest);
        let col = pairs.last().0;
        assert(mark_count(pairs[pairs.len() - 1].0) == 0);
        lemma_mark_count_add(a, ","@);
        lemma_mark_count_add(a + ","@, col);
        lemma_mark_count_add(a + ","@ + col, "?"@);
    }
}

/// Two lists of assignments to columns without placeholders, one after the other.
pub proof fn lemma_columns_free_add(a: Seq<(Seq<char>, Seq<char>)>, b: Seq<(Seq<char>, Seq<char>)>)
    requires
        columns_free(a),
        columns_free(b),
    ensures
        columns_free(a + b),
{
    assert forall|i: int| 0 <= i < (a + b).len() implies mark_count(#[trigger] (a + b)[i].0) == 0 by {
        if i < a.len() {
            assert((a + b)[i] == a[i]);
        } else {
            assert((a + b)[i] == b[i - a.len()]);
        }
    }
}

/// Every value an update of settings binds has its placeholder: its SQL holds exactly as
/// many `?` as values are bound to it, whichever fields the change gives.
pub proof fn lemma_setting_placeholders(v: Setting, id: i64)
    ensures
        mark_count("UPDATE actor SET "@ + assign_sql(setting_pairs(v)) + " WHERE id="@ + "?"@)
            == assign_args(setting_pairs(v)).push(SqlArg::Int(id)).len(),
{
    reveal_strlit("name=");
    reveal_strlit("comment=");
    reveal_strlit("profile=");
    reveal_strlit("icon_list=");
    reveal_strlit("portrait_list=");
    reveal_strlit("ho_title=");
    reveal_strlit("ho_body=");
    reveal_strlit("UPDATE actor SET ");
    reveal_strlit(" WHERE id=");
    reveal_strlit("?");
    lemma_mark_count_none("name="@);
    lemma_mark_count_none("comment="@);
    lemma_mark_count_none("profile="@);
    lemma_mark_count_none("icon_list="@);
    lemma_mark_count_none("portrait_list="@);
    lemma_mark_count_none("ho_title="@);
    lemma_mark_count_none("ho_body="@);
    lemma_mark_count_none("UPDATE actor SET "@);
    lemma_mark_count_none(" WHERE id="@);
    lemma_marks_count(1);
    let a1 = opt_pair("name="@, v.name);
    let a2 = opt_pair("comment="@, v.comment);
    let a3 = opt_pair("profile="@, v.profile);
    let a4 = opt_list_pair("icon_list="@, v.icon_list);
    let a5 = opt_list_pair("portrait_list="@, v.portrait_list);
    let a6 = opt_pair("ho_title="@, v.ho_title);
    let a7 = opt_pair("ho_body="@, v.ho_body);
    assert(columns_free(a1));
    assert(columns_free(a2));
    assert(columns_free(a3));
    assert(columns_free(a4));
    assert(columns_free(a5));
    assert(columns_free(a6));
    assert(columns_free(a7));
    lemma_columns_free_add(a1, a2);
    lemma_columns_free_add(a1 + a2, a3);
    lemma_columns_free_add(a1 + a2 + a3, a4);
    lemma_columns_free_add(a1 + a2 + a3 + a4, a5);
    lemma_columns_free_add(a1 + a2 + a3 + a4 + a5, a6);
    lemma_columns_free_add(a1 + a2 + a3 + a4 + a5 + a6, a7);
    let pairs = setting_pairs(v);
    lemma_assign_marks(pairs);
    let head = "UPDATE actor SET "@;
    let body = assign_sql(pairs);
    lemma_mark_count_add(head, body);
    lemma_mark_count_add(head + body, " WHERE id="@);
    lemma_mark_count_add(head + body + " WHERE id="@, "?"@);
}

/// The columns of two lists of assignments one after the other.
proof fn lemma_columns_add(a: Seq<(Seq<char>, Seq<char>)>, b: Seq<(Seq<char>, Seq<char>)>)
    ensures
        pair_columns(a + b) == pair_columns(a) + pair_columns(b),
{
    assert(pair_columns(a + b) =~= pair_columns(a) + pair_columns(b));
}

fn push_assign(q: &mut SqlQuery, pairs: Ghost<Seq<(Seq<char>, Seq<char>)>>, first: bool, col: &str, val: String)
    requires
        first == (pairs@.len() == 0),
        query_open(*old(q)),
        query_sql(*old(q)) == "UPDATE actor SET "@ + assign_sql(pairs@),
    ensures
        query_open(*final(q)),
        query_sql(*final(q)) == "UPDATE actor SET "@ + assign_sql(pairs@.push((col@, val@))),
        query_args(*final(q)) == query_args(*old(q)).push(SqlArg::Text(val@)),
{
    let ghost np = pairs@.push((col@, val@));
    assert(np.drop_last() =~= pairs@);
    if !first {
        query_push(q, ",");
    }
    query_push(q, col);
    query_bind_text(q, val);
    assert(query_sql(*q) =~= "UPDATE actor SET "@ + assign_sql(np));
}

/// Whether a change is allowed in stage `state`: refused by the stage (see [`open_check`]),
/// then by its rules, then, while the site runs, for touching the handout.
pub open spec fn setting_allowed(state: State, v: Setting) -> bool {
    &&& open_check(state) is Ok
    &&& setting_errors(v).len() == 0
    &&& !(state == State::Active && (v.ho_title is Some || v.ho_body is Some))
}

/// While the site runs, the handout is locked: a change that gives its title or its body is
/// never allowed, whatever else it gives.
pub proof fn lemma_handout_locked(v: Setting)
    requires
        v.ho_title is Some || v.ho_body is Some,
    ensures
        !setting_allowed(State::Active, v),
        HANDOUT_LOCKED_MESSAGE@ == "開催中はハンドアウトを変更できません"@,
        BAD_REQUEST == 400,
{
}

/// The update that sets the columns a change gives, on the character `id`.
#[verifier::rlimit(80)]
fn setting_query(info: &Setting, id: i64) -> (q: SqlQuery)
    ensures
        query_open(q),
        query_sql(q) == "UPDATE actor SET "@ + assign_sql(setting_pairs(*info)) + " WHERE id="@ + "?"@,
        query_args(q) == assign_args(setting_pairs(*info)).push(SqlArg::Int(id)),
{
    let mut q = query_new("UPDATE actor SET ");
    let ghost mut pairs: Seq<(Seq<char>, Seq<char>)> = Seq::empty();
    let mut first = true;
    assert(query_sql(q) =~= "UPDATE actor SET "@ + assign_sql(pairs));
    if let Some(v) = &info.name {
        push_assign(&mut q, Ghost(pairs), first, "name=", v.clone());
        first = false;
        proof { pairs = pairs.push(("name="@, v@)); }
    }
    assert(pairs =~= opt_pair("name="@, info.name));
    if let Some(v) = &info.comment {
        push_assign(&mut q, Ghost(pairs), first, "comment=", v.clone());
        first = false;
        proof { pairs = pairs.push(("comment="@, v@)); }
    }
    assert(pairs =~= opt_pair("name="@, info.name) + opt_pair("comment="@, info.comment));
    if let Some(v) = &info.profile {
        push_assign(&mut q, Ghost(pairs), first, "profile=", v.clone());
        first = false;
        proof { pairs = pairs.push(("profile="@, v@)); }
    }
    let ghost p3 = opt_pair("name="@, info.name) + opt_pair("comment="@, info.comment) + opt_pair("profile="@, info.profile);
    assert(pairs =~= p3);
    if let Some(v) = &info.icon_list {
        let f = format_list(v.as_str());
        push_assign(&mut q, Ghost(pairs), first, "icon_list=", f);
        first = false;
        proof { pairs = pairs.push(("icon_list="@, spec_format_list(v@))); }
    }
    let ghost p4 = p3 + opt_list_pair("icon_list="@, info.icon_list);
    assert(pairs =~= p4);
    if let Some(v) = &info.portrait_list {
        let f = format_list(v.as_str());
        push_assign(&mut q, Ghost(pairs), first, "portrait_list=", f);
        first = false;
        proof { pairs = pairs.push(("portrait_list="@, spec_format_list(v@))); }
    }
    let ghost p5 = p4 + opt_list_pair("portrait_list="@, info.portrait_list);
    assert(pairs =~= p5);
    if let Some(v) = &info.ho_title {
        push_assign(&mut q, Ghost(pairs), first, "ho_title=", v.clone());
        first = false;
        proof { pairs = pairs.push(("ho_title="@, v@)); }
    }
    let ghost p6 = p5 + opt_pair("ho_title="@, info.ho_title);
    assert(pairs =~= p6);
    if let Some(v) = &info.ho_body {
        push_assign(&mut q, Ghost(pairs), first, "ho_body=", v.clone());
        first = false;
        proof { pairs = pairs.push(("ho_body="@, v@)); }
    }
    assert(pairs =~= setting_pairs(*info));
    assert(query_args(q) =~= assign_args(pairs));
    query_push(&mut q, " WHERE id=");
    query_bind_int(&mut q, id);
    q
}

/// The update of a character's settings, or why it is refused. Not to be asked under
/// maintenance, which requests never reach.
pub fn setting_update(state: State, info: &Setting, id: i64) -> (r: Result<SqlQuery, SettingRefusal>)
    requires
        state != State::Maintenance,
    ensures
        r is Ok <==> setting_allowed(state, *info),
        open_check(state) matches Err(e) ==> (r matches Err(SettingRefusal::Refused(x)) && x == e),
        (open_check(state) is Ok && setting_errors(*info).len() > 0) ==> (r matches Err(
            SettingRefusal::Invalid(v),
        ) && v@ == setting_errors(*info)),
        (open_check(state) is Ok && setting_errors(*info).len() == 0 && !setting_allowed(state, *info))
            ==> (r matches Err(SettingRefusal::Refused(x)) && x == HttpError {
            status: BAD_REQUEST,
            message: HANDOUT_LOCKED_MESSAGE,
        }),
        (state == State::Active && (info.ho_title is Some || info.ho_body is Some)) ==> r is Err,
        (state == State::Active && (info.ho_title is Some || info.ho_body is Some) && setting_errors(
            *info,
        ).len() == 0) ==> (r matches Err(SettingRefusal::Refused(x)) && x == HttpError {
            status: BAD_REQUEST,
            message: HANDOUT_LOCKED_MESSAGE,
        }),
        r matches Ok(q) ==> query_open(q) && query_sql(q) == "UPDATE actor SET "@ + assign_sql(
            setting_pairs(*info),
        ) + " WHERE id="@ + "?"@ && query_args(q) == assign_args(setting_pairs(*info)).push(
            SqlArg::Int(id),
        ),
{
    proof {
        if info.ho_title is Some || info.ho_body is Some {
            lemma_handout_locked(*info);
        }
    }
    match state.only_open() {
        Err(e) => {
            return Err(SettingRefusal::Refused(e));
        },
        Ok(()) => {},
    }
    match info.validate() {
        Err(v) => {
            return Err(SettingRefusal::Invalid(v));
        },
        Ok(()) => {},
    }
    if state == State::Active && (info.ho_title.is_some() || info.ho_body.is_some()) {
        return Err(SettingRefusal::Refused(HttpError { status: BAD_REQUEST, message: HANDOUT_LOCKED_MESSAGE }));
    }
    Ok(setting_query(info, id))
}

} // verus!
