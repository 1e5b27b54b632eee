//! Chat messages: searching them and posting them.
use vstd::prelude::*;

use crate::common::error::{char_count, FieldError};
use crate::common::html_encode::lemma_byte_range_full;
use crate::ondyst::util::webhook::Webhook;
use crate::common::pagination::Pagination;
use crate::matcher::{captures_in_order, group_of, regex_captures, regex_captures_of, RegexCapture};
use crate::text::{
    byte_range, byte_slice, int_text, on_boundary, parse_i64, parse_i64_range, push_int, push_str,
    str_chars, string_from_chars,
};
use vstd::string::StringSliceAdditionalSpecFns;
use vstd::utf8::encode_utf8;
use crate::common::query::{
    int_args, lemma_mark_count_add, lemma_mark_count_none, lemma_marks_count, mark_count, marks,
    query_bind_int, query_bind_ints, query_bind_text, query_bind_texts, query_new,
    query_push, query_args, query_open, query_sql, text_args, SqlArg, SqlQuery,
};

verus! {

/// A chat message as it is listed.
pub struct Chat {
    pub id: i64,
    pub timestamp: i64,
    pub actor: Option<i64>,
    pub name: String,
    pub icon: String,
    pub body: String,
    pub location: Option<String>,
}

/// A search of chat messages: by place, by speaker, by words in the body.
pub struct Search {
    pub location: Option<Vec<String>>,
    pub actor: Option<Vec<i64>>,
    pub body: Option<String>,
    pub level: SearchLevel,
    pub force: bool,
}

/// How much of a conversation a search by speaker takes in.
#[derive(Debug, Clone, Copy, PartialEq, Eq, Structural)]
pub enum SearchLevel {
    /// Only what the speakers said that answers nobody.
    Standalone,
    /// Everything the speakers said, answers included.
    WithReplies,
    /// What the speakers said, what mentions them, and what answers them.
    Conversation,
}

impl Default for SearchLevel {
    fn default() -> (r: Self)
        ensures
            r == SearchLevel::WithReplies,
    {
        SearchLevel::WithReplies
    }
}

impl Search {
    /// A search with the given criteria.
    pub fn new(
        location: Option<Vec<String>>,
        actor: Option<Vec<i64>>,
        body: Option<String>,
        level: SearchLevel,
        force: bool,
    ) -> (s: Self)
        ensures
            s.location == location,
            s.actor == actor,
            s.body == body,
            s.level == level,
            s.force == force,
    {
        Search { location, actor, body, level, force }
    }
}

// ---------------------------------------------------------------------------
// The search query
// ---------------------------------------------------------------------------

/// The places searched, as sequences.
pub open spec fn search_location(s: Search) -> Option<Seq<String>> {
    match s.location {
        Some(v) => Some(v@),
        None => None,
    }
}

/// The speakers searched, as sequences.
pub open spec fn search_actor(s: Search) -> Option<Seq<i64>> {
    match s.actor {
        Some(v) => Some(v@),
        None => None,
    }
}

/// The words searched, as characters.
pub open spec fn search_body(s: Search) -> Option<Seq<char>> {
    match s.body {
        Some(b) => Some(b@),
        None => None,
    }
}

/// The start of every search: messages with the name of their place, if it has one.
pub open spec fn chat_select() -> Seq<char> {
    "SELECT c.id,c.timestamp,c.actor,c.name,c.icon,c.body,l.name location FROM chat c LEFT JOIN location l ON c.location=l.key WHERE 1=1"@
}

/// The condition on the place: one of the places given; when none is given and the search is
/// not forced, only messages whose place still exists.
pub open spec fn location_sql(loc: Option<Seq<String>>, force: bool) -> Seq<char> {
    match loc {
        Some(l) => if l.len() > 0 {
            " AND c.location IN("@ + marks(l.len()) + ")"@
        } else {
            Seq::empty()
        },
        None => if !force {
            " AND l.name IS NOT NULL"@
        } else {
            Seq::empty()
        },
    }
}

/// The values bound for the places.
pub open spec fn location_args(loc: Option<Seq<String>>) -> Seq<SqlArg> {
    match loc {
        Some(l) => text_args(l),
        None => Seq::empty(),
    }
}

/// The condition on `n` speakers at a given level.
pub open spec fn level_sql(level: SearchLevel, n: nat) -> Seq<char> {
    match level {
        SearchLevel::Standalone => "c.actor IN("@ + marks(n)
            + ") AND NOT EXISTS (SELECT 1 FROM chat_anchor ca WHERE ca.source=c.id) AND NOT EXISTS (SELECT 1 FROM chat_mention cm WHERE cm.source=c.id)"@,
        SearchLevel::WithReplies => "c.actor IN("@ + marks(n) + ")"@,
        SearchLevel::Conversation => "c.actor IN("@ + marks(n)
            + ") OR EXISTS (SELECT 1 FROM chat_mention cm WHERE cm.source=c.id AND cm.target IN("@
            + marks(n)
            + ")) OR EXISTS (SELECT 1 FROM chat_anchor ca JOIN chat tc ON ca.target=tc.id WHERE ca.source=c.id AND tc.actor IN("@
            + marks(n) + "))"@,
    }
}

/// The condition on the speakers, when some are given.
pub open spec fn actor_sql(actor: Option<Seq<i64>>, level: SearchLevel) -> Seq<char> {
    match actor {
        Some(a) => if a.len() > 0 {
            " AND ("@ + level_sql(level, a.len()) + ")"@
        } else {
            Seq::empty()
        },
        None => Seq::empty(),
    }
}

/// The values bound for the speakers: once for each list of them in the condition.
pub open spec fn actor_args(actor: Option<Seq<i64>>, level: SearchLevel) -> Seq<SqlArg> {
    match actor {
        Some(a) => if a.len() > 0 {
            match level {
                SearchLevel::Conversation => int_args(a) + int_args(a) + int_args(a),
                _ => int_args(a),
            }
        } else {
            Seq::empty()
        },
        None => Seq::empty(),
    }
}

/// The condition on the words of the body, when some are given.
pub open spec fn body_sql(body: Option<Seq<char>>) -> Seq<char> {
    match body {
        Some(b) => if b.len() > 0 {
            " AND c.body LIKE "@ + "?"@
        } else {
            Seq::empty()
        },
        None => Seq::empty(),
    }
}

/// The value bound for the words: the pattern of a body that holds them.
pub open spec fn body_args(body: Option<Seq<char>>) -> Seq<SqlArg> {
    match body {
        Some(b) => if b.len() > 0 {
            seq![SqlArg::Text("%"@ + b + "%"@)]
        } else {
            Seq::empty()
        },
        None => Seq::empty(),
    }
}

/// The SQL of a search: the conditions in turn, newest first, one page of them.
pub open spec fn chat_sql(s: Search) -> Seq<char> {
    chat_select() + location_sql(search_location(s), s.force) + actor_sql(search_actor(s), s.level)
        + body_sql(search_body(s)) + " ORDER BY c.id DESC"@ + " LIMIT "@ + "?"@ + " OFFSET "@ + "?"@
}

/// The values bound in the SQL of a search, in order.
pub open spec fn chat_args(s: Search, limit: usize, offset: usize) -> Seq<SqlArg> {
    location_args(search_location(s)) + actor_args(search_actor(s), s.level) + body_args(
        search_body(s),
    ) + seq![SqlArg::Int(limit as i64), SqlArg::Int(offset as i64)]
}

fn push_location_cond(q: &mut SqlQuery, location: &Option<Vec<String>>, force: bool)
    requires
        query_open(*old(q)),
    ensures
        query_open(*final(q)),
        query_sql(*final(q)) == query_sql(*old(q)) + location_sql(
            match location {
                Some(v) => Some(v@),
                None => None,
            },
            force,
        ),
        query_args(*final(q)) == query_args(*old(q)) + location_args(
            match location {
                Some(v) => Some(v@),
                None => None,
            },
        ),
{
    match location {
        Some(l) => {
            if l.len() > 0 {
                query_push(q, " AND c.location IN(");
                query_bind_texts(q, l);
                query_push(q, ")");
                assert(query_sql(*q) =~= query_sql(*old(q)) + (" AND c.location IN("@ + marks(l@.len())
                    + ")"@));
            } else {
                assert(query_sql(*q) =~= query_sql(*old(q)) + Seq::<char>::empty());
                assert(text_args(l@) =~= Seq::<SqlArg>::empty());
                assert(query_args(*q) =~= query_args(*old(q)) + text_args(l@));
            }
        },
        None => {
            if !force {
                query_push(q, " AND l.name IS NOT NULL");
            } else {
                assert(query_sql(*q) =~= query_sql(*old(q)) + Seq::<char>::empty());
            }
            assert(query_args(*q) =~= query_args(*old(q)) + Seq::<SqlArg>::empty());
        },
    }
}

fn push_level_cond(q: &mut SqlQuery, actor: &[i64], level: SearchLevel)
    requires
        query_open(*old(q)),
    ensures
        query_open(*final(q)),
        query_sql(*final(q)) == query_sql(*old(q)) + level_sql(level, actor@.len()),
        query_args(*final(q)) == query_args(*old(q)) + match level {
            SearchLevel::Conversation => int_args(actor@) + int_args(actor@) + int_args(actor@),
            _ => int_args(actor@),
        },
{
    match level {
        SearchLevel::Standalone => {
            query_push(q, "c.actor IN(");
            query_bind_ints(q, actor);
            query_push(
                q,
                ") AND NOT EXISTS (SELECT 1 FROM chat_anchor ca WHERE ca.source=c.id) AND NOT EXISTS (SELECT 1 FROM chat_mention cm WHERE cm.source=c.id)",
            );
            assert(query_sql(*q) =~= query_sql(*old(q)) + level_sql(level, actor@.len()));
        },
        SearchLevel::WithReplies => {
            query_push(q, "c.actor IN(");
            query_bind_ints(q, actor);
            query_push(q, ")");
            assert(query_sql(*q) =~= query_sql(*old(q)) + level_sql(level, actor@.len()));
        },
        SearchLevel::Conversation => {
            query_push(q, "c.actor IN(");
            query_bind_ints(q, actor);
            query_push(
                q,
                ") OR EXISTS (SELECT 1 FROM chat_mention cm WHERE cm.source=c.id AND cm.target IN(",
            );
            query_bind_ints(q, actor);
            query_push(
                q,
                ")) OR EXISTS (SELECT 1 FROM chat_anchor ca JOIN chat tc ON ca.target=tc.id WHERE ca.source=c.id AND tc.actor IN(",
            );
            query_bind_ints(q, actor);
            query_push(q, "))");
            assert(query_sql(*q) =~= query_sql(*old(q)) + level_sql(level, actor@.len()));
            assert(query_args(*q) =~= query_args(*old(q)) + (int_args(actor@) + int_args(actor@)
                + int_args(actor@)));
        },
    }
}

fn push_actor_cond(q: &mut SqlQuery, actor: &Option<Vec<i64>>, level: SearchLevel)
    requires
        query_open(*old(q)),
    ensures
        query_open(*final(q)),
        query_sql(*final(q)) == query_sql(*old(q)) + actor_sql(
            match actor {
                Some(v) => Some(v@),
                None => None,
            },
            level,
        ),
        query_args(*final(q)) == query_args(*old(q)) + actor_args(
            match actor {
                Some(v) => Some(v@),
                None => None,
            },
            level,
        ),
{
    match actor {
        Some(a) => {
            if a.len() > 0 {
                query_push(q, " AND (");
                push_level_cond(q, a.as_slice(), level);
                query_push(q, ")");
                assert(query_sql(*q) =~= query_sql(*old(q)) + (" AND ("@ + level_sql(level, a@.len())
                    + ")"@));
            } else {
                assert(query_sql(*q) =~= query_sql(*old(q)) + Seq::<char>::empty());
                assert(query_args(*q) =~= query_args(*old(q)) + Seq::<SqlArg>::empty());
            }
        },
        None => {
            assert(query_sql(*q) =~= query_sql(*old(q)) + Seq::<char>::empty());
            assert(query_args(*q) =~= query_args(*old(q)) + Seq::<SqlArg>::empty());
        },
    }
}

fn push_body_cond(q: &mut SqlQuery, body: &Option<String>)
    requires
        query_open(*old(q)),
    ensures
        query_open(*final(q)),
        query_sql(*final(q)) == query_sql(*old(q)) + body_sql(
            match body {
                Some(b) => Some(b@),
                None => None,
            },
        ),
        query_args(*final(q)) == query_args(*old(q)) + body_args(
            match body {
                Some(b) => Some(b@),
                None => None,
            },
        ),
{
    match body {
        Some(b) => {
            if !b.as_str().is_empty() {
                query_push(q, " AND c.body LIKE ");
                let mut pattern = "%".to_owned();
                pattern.append(b.as_str());
                pattern.append("%");
                query_bind_text(q, pattern);
                assert(query_sql(*q) =~= query_sql(*old(q)) + (" AND c.body LIKE "@ + "?"@));
                assert(query_args(*q) =~= query_args(*old(q)) + seq![SqlArg::Text("%"@ + b@ + "%"@)]);
            } else {
                assert(query_sql(*q) =~= query_sql(*old(q)) + Seq::<char>::empty());
                assert(query_args(*q) =~= query_args(*old(q)) + Seq::<SqlArg>::empty());
            }
        },
        None => {
            assert(query_sql(*q) =~= query_sql(*old(q)) + Seq::<char>::empty());
            assert(query_args(*q) =~= query_args(*old(q)) + Seq::<SqlArg>::empty());
        },
    }
}

/// The query of a search for one page of messages; `None` when the search names neither a
/// place nor a speaker, which finds nothing.
pub fn chat_query(info: &Search, page: &Pagination<20, 100>) -> (r: Option<SqlQuery>)
    ensures
        r is None <==> (info.location is None && info.actor is None),
        r matches Some(q) ==> query_open(q) && query_sql(q) == chat_sql(*info) && query_args(q)
            == chat_args(*info, page.limit, page.offset),
        r matches Some(q) ==> {
            let a = query_args(q);
            &&& a.len() >= 2
            &&& a[a.len() - 2] == SqlArg::Int(page.limit as i64)
            &&& a[a.len() - 1] == SqlArg::Int(page.offset as i64)
        },
{
    if info.location.is_none() && info.actor.is_none() {
        return None;
    }
    let mut q = query_new(
        "SELECT c.id,c.timestamp,c.actor,c.name,c.icon,c.body,l.name location FROM chat c LEFT JOIN location l ON c.location=l.key WHERE 1=1",
    );
    let ghost loc = search_location(*info);
    let ghost act = search_actor(*info);
    let ghost bod = search_body(*info);
    assert(query_args(q) == Seq::<SqlArg>::empty());
    push_location_cond(&mut q, &info.location, info.force);
    assert(query_sql(q) == chat_select() + location_sql(loc, info.force));
    assert(query_args(q) =~= location_args(loc));
    push_actor_cond(&mut q, &info.actor, info.level);
    assert(query_sql(q) == chat_select() + location_sql(loc, info.force) + actor_sql(act, info.level));
    assert(query_args(q) == location_args(loc) + actor_args(act, info.level));
    push_body_cond(&mut q, &info.body);
    assert(query_sql(q) == chat_select() + location_sql(loc, info.force) + actor_sql(act, info.level)
        + body_sql(bod));
    assert(query_args(q) == location_args(loc) + actor_args(act, info.level) + body_args(bod));
    query_push(&mut q, " ORDER BY c.id DESC");
    query_push(&mut q, " LIMIT ");
    query_bind_int(&mut q, page.limit as i64);
    query_push(&mut q, " OFFSET ");
    query_bind_int(&mut q, page.offset as i64);
    assert(query_sql(q) == chat_sql(*info));
    assert(query_args(q) =~= chat_args(*info, page.limit, page.offset));
    proof { lemma_chat_page_values(*info, page.limit, page.offset); }
    Some(q)
}

/// The start of a search holds no placeholder.
proof fn lemma_select_marks()
    ensures
        mark_count(chat_select()) == 0,
{
    reveal_strlit(
        "SELECT c.id,c.timestamp,c.actor,c.name,c.icon,c.body,l.name location FROM chat c LEFT JOIN location l ON c.location=l.key WHERE 1=1",
    );
    lemma_mark_count_none(chat_select());
}

/// The condition on the place holds a placeholder for each place bound.
proof fn lemma_location_marks(loc: Option<Seq<String>>, force: bool)
    ensures
        mark_count(location_sql(loc, force)) == location_args(loc).len(),
{
    reveal_strlit(" AND c.location IN(");
    reveal_strlit(")");
    reveal_strlit(" AND l.name IS NOT NULL");
    lemma_mark_count_none(" AND c.location IN("@);
    lemma_mark_count_none(")"@);
    lemma_mark_count_none(" AND l.name IS NOT NULL"@);
    lemma_mark_count_none(Seq::<char>::empty());
    match loc {
        Some(l) => {
            if l.len() > 0 {
                lemma_marks_count(l.len());
                lemma_mark_count_add(" AND c.location IN("@ + marks(l.len()), ")"@);
                lemma_mark_count_add(" AND c.location IN("@, marks(l.len()));
            }
        },
        None => {},
    }
}

/// The condition on `n` speakers holds a placeholder for each of them in each list of them:
/// three lists for a whole conversation, one otherwise.
proof fn lemma_level_marks(level: SearchLevel, n: nat)
    ensures
        mark_count(level_sql(level, n)) == (if level == SearchLevel::Conversation {
            3 * n
        } else {
            n
        }),
{
    let open = "c.actor IN("@;
    let alone = ") AND NOT EXISTS (SELECT 1 FROM chat_anchor ca WHERE ca.source=c.id) AND NOT EXISTS (SELECT 1 FROM chat_mention cm WHERE cm.source=c.id)"@;
    let close = ")"@;
    let mention = ") OR EXISTS (SELECT 1 FROM chat_mention cm WHERE cm.source=c.id AND cm.target IN("@;
    let anchor = ")) OR EXISTS (SELECT 1 FROM chat_anchor ca JOIN chat tc ON ca.target=tc.id WHERE ca.source=c.id AND tc.actor IN("@;
    let end = "))"@;
    reveal_strlit("c.actor IN(");
    reveal_strlit(
        ") AND NOT EXISTS (SELECT 1 FROM chat_anchor ca WHERE ca.source=c.id) AND NOT EXISTS (SELECT 1 FROM chat_mention cm WHERE cm.source=c.id)",
    );
    reveal_strlit(")");
    reveal_strlit(") OR EXISTS (SELECT 1 FROM chat_mention cm WHERE cm.source=c.id AND cm.target IN(");
    reveal_strlit(
        ")) OR EXISTS (SELECT 1 FROM chat_anchor ca JOIN chat tc ON ca.target=tc.id WHERE ca.source=c.id AND tc.actor IN(",
    );
    reveal_strlit("))");
    lemma_mark_count_none(open);
    lemma_mark_count_none(alone);
    lemma_mark_count_none(close);
    lemma_mark_count_none(mention);
    lemma_mark_count_none(anchor);
    lemma_mark_count_none(end);
    lemma_marks_count(n);
    let m = marks(n);
    lemma_mark_count_add(open, m);
    match level {
        SearchLevel::Standalone => {
            lemma_mark_count_add(open + m, alone);
        },
        SearchLevel::WithReplies => {
            lemma_mark_count_add(open + m, close);
        },
        SearchLevel::Conversation => {
            lemma_mark_count_add(open + m, mention);
            lemma_mark_count_add(open + m + mention, m);
            lemma_mark_count_add(open + m + mention + m, anchor);
            lemma_mark_count_add(open + m + mention + m + anchor, m);
            lemma_mark_count_add(open + m + mention + m + anchor + m, end);
        },
    }
}

/// The condition on the speakers holds a placeholder for each speaker bound.
proof fn lemma_actor_marks(actor: Option<Seq<i64>>, level: SearchLevel)
    ensures
        mark_count(actor_sql(actor, level)) == actor_args(actor, level).len(),
{
    lemma_mark_count_none(Seq::<char>::empty());
    match actor {
        Some(a) => {
            if a.len() > 0 {
                reveal_strlit(" AND (");
                reveal_strlit(")");
                lemma_mark_count_none(" AND ("@);
                lemma_mark_count_none(")"@);
                lemma_level_marks(level, a.len());
                lemma_mark_count_add(" AND ("@, level_sql(level, a.len()));
                lemma_mark_count_add(" AND ("@ + level_sql(level, a.len()), ")"@);
            }
        },
        None => {},
    }
}

/// The condition on the words holds a placeholder for the pattern bound.
proof fn lemma_body_marks(body: Option<Seq<char>>)
    ensures
        mark_count(body_sql(body)) == body_args(body).len(),
{
    lemma_mark_count_none(Seq::<char>::empty());
    match body {
        Some(b) => {
            if b.len() > 0 {
                reveal_strlit(" AND c.body LIKE ");
                reveal_strlit("?");
                lemma_mark_count_none(" AND c.body LIKE "@);
                lemma_marks_count(1);
                lemma_mark_count_add(" AND c.body LIKE "@, "?"@);
            }
        },
        None => {},
    }
}

/// Every value a search binds has its placeholder: the SQL of a search holds exactly as many
/// `?` as values are bound to it, in whatever shape the search comes.
pub proof fn lemma_chat_placeholders(s: Search, limit: usize, offset: usize)
    ensures
        mark_count(chat_sql(s)) == chat_args(s, limit, offset).len(),
{
    let sel = chat_select();
    let loc = location_sql(search_location(s), s.force);
    let act = actor_sql(search_actor(s), s.level);
    let body = body_sql(search_body(s));
    let order = " ORDER BY c.id DESC"@;
    let lim = " LIMIT "@;
    let off = " OFFSET "@;
    let mark = "?"@;
    reveal_strlit(" ORDER BY c.id DESC");
    reveal_strlit(" LIMIT ");
    reveal_strlit(" OFFSET ");
    reveal_strlit("?");
    lemma_select_marks();
    lemma_location_marks(search_location(s), s.force);
    lemma_actor_marks(search_actor(s), s.level);
    lemma_body_marks(search_body(s));
    lemma_mark_count_none(order);
    lemma_mark_count_none(lim);
    lemma_mark_count_none(off);
    lemma_marks_count(1);
    lemma_mark_count_add(sel, loc);
    lemma_mark_count_add(sel + loc, act);
    lemma_mark_count_add(sel + loc + act, body);
    lemma_mark_count_add(sel + loc + act + body, order);
    lemma_mark_count_add(sel + loc + act + body + order, lim);
    lemma_mark_count_add(sel + loc + act + body + order + lim, mark);
    lemma_mark_count_add(sel + loc + act + body + order + lim + mark, off);
    lemma_mark_count_add(sel + loc + act + body + order + lim + mark + off, mark);
}

/// A search binds its page last: the limit, then the offset, whatever it searches for.
pub proof fn lemma_chat_page_values(s: Search, limit: usize, offset: usize)
    ensures
        chat_args(s, limit, offset).len() >= 2,
        chat_args(s, limit, offset)[chat_args(s, limit, offset).len() - 2] == SqlArg::Int(limit as i64),
        chat_args(s, limit, offset)[chat_args(s, limit, offset).len() - 1] == SqlArg::Int(offset as i64),
{
    let a = chat_args(s, limit, offset);
    let head = location_args(search_location(s)) + actor_args(search_actor(s), s.level) + body_args(
        search_body(s),
    );
    let page = seq![SqlArg::Int(limit as i64), SqlArg::Int(offset as i64)];
    assert(a == head + page);
    assert(a[a.len() - 2] == page[0]);
    assert(a[a.len() - 1] == page[1]);
}

/// The SQL of a search is fixed by its shape alone: how many places and speakers it names,
/// its level, whether it is forced and whether it looks for words. The values searched never
/// enter the SQL; they are all bound.
pub proof fn lemma_chat_sql_shape(a: Search, b: Search)
    requires
        (a.location is Some) == (b.location is Some),
        a.location matches Some(x) ==> (b.location matches Some(y) && x@.len() == y@.len()),
        (a.actor is Some) == (b.actor is Some),
        a.actor matches Some(x) ==> (b.actor matches Some(y) && x@.len() == y@.len()),
        a.level == b.level,
        a.force == b.force,
        (a.body matches Some(x) && x@.len() > 0) == (b.body matches Some(y) && y@.len() > 0),
    ensures
        chat_sql(a) == chat_sql(b),
{
}

// ---------------------------------------------------------------------------
// Mentions and anchors in a posted message
// ---------------------------------------------------------------------------

/// A mention `@12` (group 1) or an anchor `>>34`, escaped as `&gt;&gt;34` (group 2).
pub const REF_PATTERN: &'static str = "@(?<mention>\\d+)|&gt;&gt;(?<anchor>\\d+)";

/// The character a match mentions, if it is a mention whose number reads as an `i64`.
pub open spec fn ref_mention(text: Seq<char>, c: RegexCapture) -> Option<i64> {
    match group_of(c, 1) {
        Some((a, b)) => parse_i64(byte_range(text, a as int, b as int)),
        None => None,
    }
}

/// The message a match answers, if it is an anchor whose number reads as an `i64`.
pub open spec fn ref_anchor(text: Seq<char>, c: RegexCapture) -> Option<i64> {
    match group_of(c, 1) {
        Some(_) => None,
        None => match group_of(c, 2) {
            Some((a, b)) => parse_i64(byte_range(text, a as int, b as int)),
            None => None,
        },
    }
}

/// What a match becomes: a link to the character or message it names, with the number
/// written back in decimal; the match itself where its number does not read.
pub open spec fn ref_html(text: Seq<char>, c: RegexCapture) -> Seq<char> {
    match ref_mention(text, c) {
        Some(v) => "<a data-mention=\""@ + int_text(v as int) + "\">@"@ + int_text(v as int) + "</a>"@,
        None => match ref_anchor(text, c) {
            Some(v) => "<a data-anchor=\""@ + int_text(v as int) + "\">&gt;&gt;"@ + int_text(v as int)
                + "</a>"@,
            None => byte_range(text, c.start as int, c.end as int),
        },
    }
}

/// The text from match `k` on, the previous match having ended at byte `end`: the text
/// between matches as it is, each match as [`ref_html`] makes it.
pub open spec fn refs_from(text: Seq<char>, caps: Seq<RegexCapture>, k: int, end: int) -> Seq<char>
    decreases caps.len() - k,
{
    if k < 0 || k >= caps.len() {
        byte_range(text, end, encode_utf8(text).len() as int)
    } else {
        byte_range(text, end, caps[k].start as int) + ref_html(text, caps[k]) + refs_from(
            text,
            caps,
            k + 1,
            caps[k].end as int,
        )
    }
}

/// The matches of [`REF_PATTERN`] in `text`, as the `regex` crate reports them (none were the
/// pattern not to compile).
pub open spec fn ref_captures(text: Seq<char>) -> Seq<RegexCapture> {
    match regex_captures_of(REF_PATTERN@, text) {
        Some(caps) => caps,
        None => Seq::empty(),
    }
}

/// A posted message with its mentions and anchors turned into links.
pub open spec fn spec_link_refs(text: Seq<char>) -> Seq<char> {
    refs_from(text, ref_captures(text), 0, 0)
}

/// The characters mentioned in `text`.
pub open spec fn mentions_of(text: Seq<char>) -> Set<i64> {
    Set::new(|v: i64| exists|k: int| 0 <= k < ref_captures(text).len() && #[trigger] ref_mention(text, ref_captures(text)[k]) == Some(v))
}

/// The messages answered in `text`.
pub open spec fn anchors_of(text: Seq<char>) -> Set<i64> {
    Set::new(|v: i64| exists|k: int| 0 <= k < ref_captures(text).len() && #[trigger] ref_anchor(text, ref_captures(text)[k]) == Some(v))
}

/// A message with its mentions and anchors linked, what it mentions and what it answers.
pub struct LinkedRefs {
    pub body: String,
    pub mentions: Vec<i64>,
    pub anchors: Vec<i64>,
}

fn push_unique(v: &mut Vec<i64>, x: i64)
    ensures
        final(v)@.to_set() == old(v)@.to_set().insert(x),
        old(v)@.no_duplicates() ==> final(v)@.no_duplicates(),
{
    let mut k: usize = 0;
    while k < v.len()
        invariant
            0 <= k <= v@.len(),
            forall|j: int| 0 <= j < k ==> v@[j] != x,
        decreases v.len() - k,
    {
        if v[k] == x {
            assert(v@.to_set().contains(x)) by {
                assert(v@.contains(x));
            }
            assert(v@.to_set().insert(x) =~= v@.to_set());
            return;
        }
        k = k + 1;
    }
    let ghost before = v@;
    v.push(x);
    proof {
        assert(!before.contains(x));
        assert(v@.to_set() =~= before.to_set().insert(x)) by {
            assert forall|y: i64| v@.to_set().contains(y) <==> before.to_set().insert(x).contains(y) by {
                if v@.contains(y) && y != x {
                    let j = choose|j: int| 0 <= j < v@.len() && v@[j] == y;
                    assert(before[j] == y);
                }
                if before.contains(y) {
                    let j = choose|j: int| 0 <= j < before.len() && before[j] == y;
                    assert(v@[j] == y);
                }
                if y == x {
                    assert(v@[before.len() as int] == x);
                }
            }
        }
        if before.no_duplicates() {
            assert forall|a: int, b: int| 0 <= a < v@.len() && 0 <= b < v@.len() && a != b implies v@[a]
                != v@[b] by {
                if a == before.len() {
                    assert(before.contains(before[b]));
                } else if b == before.len() {
                    assert(before.contains(before[a]));
                }
            }
        }
    }
}

fn ref_group(c: &RegexCapture, g: usize) -> (r: Option<(usize, usize)>)
    ensures
        r == group_of(*c, g as int),
{
    if g < c.groups.len() {
        c.groups[g]
    } else {
        None
    }
}

/// The number a group of the match reads as, the group lying on character boundaries.
fn group_number(text: &str, c: &RegexCapture, g: usize) -> (r: Option<i64>)
    requires
        group_of(*c, g as int) matches Some((a, b)) ==> a <= b && on_boundary(text@, a as int)
            && on_boundary(text@, b as int),
    ensures
        r == (match group_of(*c, g as int) {
            Some((a, b)) => parse_i64(byte_range(text@, a as int, b as int)),
            None => None,
        }),
{
    match ref_group(c, g) {
        Some((a, b)) => {
            let digits = str_chars(byte_slice(text, a, b));
            assert(digits@.subrange(0, digits@.len() as int) =~= digits@);
            parse_i64_range(&digits, 0, digits.len())
        },
        None => None,
    }
}

/// The characters mentioned by the first `k` matches.
pub open spec fn mentions_upto(text: Seq<char>, caps: Seq<RegexCapture>, k: int) -> Set<i64> {
    Set::new(|v: i64| exists|j: int| 0 <= j < k && #[trigger] ref_mention(text, caps[j]) == Some(v))
}

/// The messages answered by the first `k` matches.
pub open spec fn anchors_upto(text: Seq<char>, caps: Seq<RegexCapture>, k: int) -> Set<i64> {
    Set::new(|v: i64| exists|j: int| 0 <= j < k && #[trigger] ref_anchor(text, caps[j]) == Some(v))
}

proof fn lemma_upto_step(text: Seq<char>, caps: Seq<RegexCapture>, k: int)
    requires
        0 <= k,
    ensures
        mentions_upto(text, caps, k + 1) == (match ref_mention(text, caps[k]) {
            Some(v) => mentions_upto(text, caps, k).insert(v),
            None => mentions_upto(text, caps, k),
        }),
        anchors_upto(text, caps, k + 1) == (match ref_anchor(text, caps[k]) {
            Some(v) => anchors_upto(text, caps, k).insert(v),
            None => anchors_upto(text, caps, k),
        }),
{
    let m1 = mentions_upto(text, caps, k + 1);
    let m0 = mentions_upto(text, caps, k);
    let m2 = match ref_mention(text, caps[k]) {
        Some(v) => m0.insert(v),
        None => m0,
    };
    assert forall|v: i64| m1.contains(v) <==> m2.contains(v) by {
        if m1.contains(v) {
            let j = choose|j: int| 0 <= j < k + 1 && #[trigger] ref_mention(text, caps[j]) == Some(v);
            if j < k {
                assert(m0.contains(v));
            }
        }
        if m0.contains(v) {
            let j = choose|j: int| 0 <= j < k && #[trigger] ref_mention(text, caps[j]) == Some(v);
            assert(ref_mention(text, caps[j]) == Some(v));
        }
        if ref_mention(text, caps[k]) == Some(v) {
            assert(ref_mention(text, caps[k]) == Some(v));
        }
    }
    assert(m1 =~= m2);
    let a1 = anchors_upto(text, caps, k + 1);
    let a0 = anchors_upto(text, caps, k);
    let a2 = match ref_anchor(text, caps[k]) {
        Some(v) => a0.insert(v),
        None => a0,
    };
    assert forall|v: i64| a1.contains(v) <==> a2.contains(v) by {
        if a1.contains(v) {
            let j = choose|j: int| 0 <= j < k + 1 && #[trigger] ref_anchor(text, caps[j]) == Some(v);
            if j < k {
                assert(a0.contains(v));
            }
        }
        if a0.contains(v) {
            let j = choose|j: int| 0 <= j < k && #[trigger] ref_anchor(text, caps[j]) == Some(v);
            assert(ref_anchor(text, caps[j]) == Some(v));
        }
        if ref_anchor(text, caps[k]) == Some(v) {
            assert(ref_anchor(text, caps[k]) == Some(v));
        }
    }
    assert(a1 =~= a2);
}

fn push_link(out: &mut Vec<char>, kind: &str, mark: &str, v: i64)
    ensures
        final(out)@ == old(out)@ + ("<a data-"@ + kind@ + "=\""@ + int_text(v as int) + "\">"@ + mark@
            + int_text(v as int) + "</a>"@),
{
    push_str(out, "<a data-");
    push_str(out, kind);
    push_str(out, "=\"");
    push_int(out, v);
    push_str(out, "\">");
    push_str(out, mark);
    push_int(out, v);
    push_str(out, "</a>");
    assert(out@ =~= old(out)@ + ("<a data-"@ + kind@ + "=\""@ + int_text(v as int) + "\">"@ + mark@
        + int_text(v as int) + "</a>"@));
}

/// Appends what the match `c` becomes (see [`ref_html`]) and records what it names.
#[verifier::rlimit(80)]
fn push_ref(text: &str, c: &RegexCapture, out: &mut Vec<char>, mentions: &mut Vec<i64>, anchors: &mut Vec<i64>)
    requires
        c.start <= c.end,
        on_boundary(text@, c.start as int),
        on_boundary(text@, c.end as int),
        forall|g: int|
            #![trigger group_of(*c, g)]
            group_of(*c, g) is Some ==> {
                let (a, b) = group_of(*c, g)->0;
                &&& a <= b
                &&& on_boundary(text@, a as int)
                &&& on_boundary(text@, b as int)
            },
    ensures
        final(out)@ == old(out)@ + ref_html(text@, *c),
        final(mentions)@.to_set() == (match ref_mention(text@, *c) {
            Some(v) => old(mentions)@.to_set().insert(v),
            None => old(mentions)@.to_set(),
        }),
        final(anchors)@.to_set() == (match ref_anchor(text@, *c) {
            Some(v) => old(anchors)@.to_set().insert(v),
            None => old(anchors)@.to_set(),
        }),
        old(mentions)@.no_duplicates() ==> final(mentions)@.no_duplicates(),
        old(anchors)@.no_duplicates() ==> final(anchors)@.no_duplicates(),
{
    proof {
        reveal_strlit("mention");
        reveal_strlit("anchor");
        reveal_strlit("@");
        reveal_strlit("&gt;&gt;");
        reveal_strlit("<a data-");
        reveal_strlit("=\"");
        reveal_strlit("\">");
        reveal_strlit("<a data-mention=\"");
        reveal_strlit("<a data-anchor=\"");
        reveal_strlit("\">@");
        reveal_strlit("\">&gt;&gt;");
        assert("<a data-"@ + "mention"@ + "=\""@ =~= "<a data-mention=\""@);
        assert("<a data-"@ + "anchor"@ + "=\""@ =~= "<a data-anchor=\""@);
        assert("\">"@ + "@"@ =~= "\">@"@);
        assert("\">"@ + "&gt;&gt;"@ =~= "\">&gt;&gt;"@);
    }
    assert(group_of(*c, 1) == group_of(*c, 1));
    assert(group_of(*c, 2) == group_of(*c, 2));
    let g1 = ref_group(c, 1);
    let m = group_number(text, c, 1);
    match m {
        Some(v) => {
            push_link(out, "mention", "@", v);
            push_unique(mentions, v);
            assert(ref_mention(text@, *c) == Some(v));
            assert(ref_anchor(text@, *c) is None);
            assert(final(anchors)@ == old(anchors)@);
        },
        None => {
            assert(ref_mention(text@, *c) is None);
            if g1.is_none() {
                let an = group_number(text, c, 2);
                match an {
                    Some(v) => {
                        push_link(out, "anchor", "&gt;&gt;", v);
                        push_unique(anchors, v);
                    },
                    None => {
                        push_str(out, byte_slice(text, c.start, c.end));
                    },
                }
            } else {
                assert(ref_anchor(text@, *c) is None);
                push_str(out, byte_slice(text, c.start, c.end));
            }
        },
    }
}

/// A posted message (already rendered as HTML) with its mentions and anchors turned into
/// links, the characters it mentions and the messages it answers, each once.
#[verifier::rlimit(80)]
pub fn link_refs(text: &str) -> (r: LinkedRefs)
    ensures
        r.body@ == spec_link_refs(text@),
        r.mentions@.to_set() == mentions_of(text@),
        r.anchors@.to_set() == anchors_of(text@),
        r.mentions@.no_duplicates(),
        r.anchors@.no_duplicates(),
{
    let caps = match regex_captures(REF_PATTERN, text) {
        Some(caps) => caps,
        None => Vec::new(),
    };
    let ghost t = text@;
    assert(caps@ == ref_captures(t));
    assert(captures_in_order(t, caps@));
    proof { lemma_byte_range_full(t); }
    let mut out: Vec<char> = Vec::new();
    let mut mentions: Vec<i64> = Vec::new();
    let mut anchors: Vec<i64> = Vec::new();
    let mut end: usize = 0;
    let mut k: usize = 0;
    assert(mentions@.to_set() =~= mentions_upto(t, caps@, 0));
    assert(anchors@.to_set() =~= anchors_upto(t, caps@, 0));
    while k < caps.len()
        invariant
            t == text@,
            caps@ == ref_captures(t),
            captures_in_order(t, caps@),
            0 <= k <= caps@.len(),
            on_boundary(t, end as int),
            k == 0 ==> end == 0,
            k > 0 ==> end == caps@[k - 1].end,
            refs_from(t, caps@, 0, 0) == out@ + refs_from(t, caps@, k as int, end as int),
            mentions@.to_set() == mentions_upto(t, caps@, k as int),
            anchors@.to_set() == anchors_upto(t, caps@, k as int),
            mentions@.no_duplicates(),
            anchors@.no_duplicates(),
        decreases caps@.len() - k,
    {
        let c = &caps[k];
        assert(caps@[k as int] == *c);
        if k + 1 < caps.len() {
            assert(caps@[k + 1] == caps@[k + 1]);
        }
        push_str(&mut out, byte_slice(text, end, c.start));
        assert forall|g: int|
            #![trigger group_of(*c, g)]
            group_of(*c, g) is Some implies {
                let (a, b) = group_of(*c, g)->0;
                &&& a <= b
                &&& on_boundary(t, a as int)
                &&& on_boundary(t, b as int)
            } by {
            assert(group_of(caps@[k as int], g) is Some);
        }
        push_ref(text, c, &mut out, &mut mentions, &mut anchors);
        proof { lemma_upto_step(t, caps@, k as int); }
        end = c.end;
        k = k + 1;
    }
    assert(text.spec_bytes() == encode_utf8(text@));
    let n = text.as_bytes().len();
    push_str(&mut out, byte_slice(text, end, n));
    assert(mentions_upto(t, caps@, caps@.len() as int) =~= mentions_of(t));
    assert(anchors_upto(t, caps@, caps@.len() as int) =~= anchors_of(t));
    LinkedRefs { body: string_from_chars(out), mentions, anchors }
}

// ---------------------------------------------------------------------------
// Posting a message
// ---------------------------------------------------------------------------

/// A message as it is posted: where, under which name and icon, and what.
pub struct Post {
    pub location: String,
    pub name: String,
    pub icon: String,
    pub body: String,
}

/// The message of a field longer than 16 characters.
pub const MAX_16_MESSAGE: &'static str = "16文字以内で入力してください";
/// The message of an icon longer than 256 characters.
pub const MAX_256_MESSAGE: &'static str = "256文字以内にしてください";
/// The message of a body longer than 500 characters.
pub const MAX_500_MESSAGE: &'static str = "500文字以内で入力してください";

/// The error of a field of `len` characters over the limit `max`, if it is over it.
pub open spec fn length_error(len: nat, max: nat, field: &'static str, message: &'static str) -> Seq<FieldError> {
    if len > max {
        seq![FieldError { field, message }]
    } else {
        Seq::empty()
    }
}

/// The rules a posted message breaks, field by field: place and name at most 16 characters,
/// icon at most 256, body at most 500.
pub open spec fn post_errors(p: Post) -> Seq<FieldError> {
    length_error(p.location@.len(), 16, "location", MAX_16_MESSAGE) + length_error(
        p.name@.len(),
        16,
        "name",
        MAX_16_MESSAGE,
    ) + length_error(p.icon@.len(), 256, "icon", MAX_256_MESSAGE) + length_error(
        p.body@.len(),
        500,
        "body",
        MAX_500_MESSAGE,
    )
}

/// The rules of a post: it is accepted exactly when its place and name have at most 16
/// characters, its icon at most 256 and its body at most 500; each field over its limit is
/// refused with an error on that field and its message.
pub proof fn lemma_post_rules(p: Post)
    ensures
        post_errors(p).len() == 0 <==> (p.location@.len() <= 16 && p.name@.len() <= 16 && p.icon@.len()
            <= 256 && p.body@.len() <= 500),
        p.location@.len() > 16 ==> post_errors(p).contains(FieldError { field: "location", message: MAX_16_MESSAGE }),
        p.name@.len() > 16 ==> post_errors(p).contains(FieldError { field: "name", message: MAX_16_MESSAGE }),
        p.icon@.len() > 256 ==> post_errors(p).contains(FieldError { field: "icon", message: MAX_256_MESSAGE }),
        p.body@.len() > 500 ==> post_errors(p).contains(FieldError { field: "body", message: MAX_500_MESSAGE }),
        MAX_16_MESSAGE@ == "16文字以内で入力してください"@,
        MAX_256_MESSAGE@ == "256文字以内にしてください"@,
        MAX_500_MESSAGE@ == "500文字以内で入力してください"@,
{
    let e1 = length_error(p.location@.len(), 16, "location", MAX_16_MESSAGE);
    let e2 = length_error(p.name@.len(), 16, "name", MAX_16_MESSAGE);
    let e3 = length_error(p.icon@.len(), 256, "icon", MAX_256_MESSAGE);
    let e4 = length_error(p.body@.len(), 500, "body", MAX_500_MESSAGE);
    let all = post_errors(p);
    assert(all == e1 + e2 + e3 + e4);
    if p.location@.len() > 16 {
        assert(all[0] == e1[0]);
    }
    if p.name@.len() > 16 {
        assert(all[e1.len() as int] == e2[0]);
    }
    if p.icon@.len() > 256 {
        assert(all[(e1.len() + e2.len()) as int] == e3[0]);
    }
    if p.body@.len() > 500 {
        assert(all[(e1.len() + e2.len() + e3.len()) as int] == e4[0]);
    }
}

fn push_length_error(errors: &mut Vec<FieldError>, s: &str, max: usize, field: &'static str, message: &'static str)
    ensures
        final(errors)@ == old(errors)@ + length_error(s@.len(), max as nat, field, message),
{
    if char_count(s) > max {
        errors.push(FieldError { field, message });
        assert(final(errors)@ =~= old(errors)@ + length_error(s@.len(), max as nat, field, message));
    } else {
        assert(errors@ =~= old(errors)@ + length_error(s@.len(), max as nat, field, message));
    }
}

impl Post {
    /// Checks the lengths of the fields: the rules broken, in the order of the fields.
    pub fn validate(&self) -> (r: Result<(), Vec<FieldError>>)
        ensures
            match r {
                Ok(()) => post_errors(*self).len() == 0,
                Err(v) => v@ == post_errors(*self) && v@.len() > 0,
            },
            r is Ok <==> (self.location@.len() <= 16 && self.name@.len() <= 16 && self.icon@.len() <= 256
                && self.body@.len() <= 500),
            self.location@.len() > 16 ==> (r matches Err(v) && v@.contains(
                FieldError { field: "location", message: MAX_16_MESSAGE },
            )),
            self.name@.len() > 16 ==> (r matches Err(v) && v@.contains(
                FieldError { field: "name", message: MAX_16_MESSAGE },
            )),
            self.icon@.len() > 256 ==> (r matches Err(v) && v@.contains(
                FieldError { field: "icon", message: MAX_256_MESSAGE },
            )),
            self.body@.len() > 500 ==> (r matches Err(v) && v@.contains(
                FieldError { field: "body", message: MAX_500_MESSAGE },
            )),
    {
        proof { lemma_post_rules(*self); }
        let mut errors: Vec<FieldError> = Vec::new();
        push_length_error(&mut errors, self.location.as_str(), 16, "location", MAX_16_MESSAGE);
        push_length_error(&mut errors, self.name.as_str(), 16, "name", MAX_16_MESSAGE);
        push_length_error(&mut errors, self.icon.as_str(), 256, "icon", MAX_256_MESSAGE);
        push_length_error(&mut errors, self.body.as_str(), 500, "body", MAX_500_MESSAGE);
        assert(errors@ =~= post_errors(*self));
        if errors.len() == 0 {
            Ok(())
        } else {
            Err(errors)
        }
    }
}

/// The query of the speakers of the answered messages: `None` when no message is answered.
pub fn anchor_actor_query(anchors: &[i64]) -> (r: Option<SqlQuery>)
    ensures
        r is None <==> anchors@.len() == 0,
        r matches Some(q) ==> query_open(q) && query_sql(q) == "SELECT actor FROM chat WHERE id IN ("@
            + marks(anchors@.len()) + ")"@ && query_args(q) == int_args(anchors@),
{
    if anchors.len() == 0 {
        return None;
    }
    let mut q = query_new("SELECT actor FROM chat WHERE id IN (");
    query_bind_ints(&mut q, anchors);
    query_push(&mut q, ")");
    assert(query_args(q) =~= int_args(anchors@));
    Some(q)
}

/// The query of the speakers of answered messages binds a value to each of its placeholders.
pub proof fn lemma_anchor_placeholders(anchors: Seq<i64>)
    ensures
        mark_count("SELECT actor FROM chat WHERE id IN ("@ + marks(anchors.len()) + ")"@)
            == int_args(anchors).len(),
{
    reveal_strlit("SELECT actor FROM chat WHERE id IN (");
    reveal_strlit(")");
    lemma_mark_count_none("SELECT actor FROM chat WHERE id IN ("@);
    lemma_mark_count_none(")"@);
    lemma_marks_count(anchors.len());
    lemma_mark_count_add("SELECT actor FROM chat WHERE id IN ("@, marks(anchors.len()));
    lemma_mark_count_add("SELECT actor FROM chat WHERE id IN ("@ + marks(anchors.len()), ")"@);
}

/// Who is notified of a message: the characters it mentions and the speakers of the messages
/// it answers, but not its own speaker.
pub open spec fn notify_set(mentioned: Seq<i64>, anchor_actors: Seq<Option<i64>>, me: i64) -> Set<i64> {
    (mentioned.to_set() + Set::new(|a: i64| anchor_actors.contains(Some(a)))).remove(me)
}

/// Who is notified of a message (see [`notify_set`]), each once.
pub fn notify_targets(mentioned: &[i64], anchor_actors: &[Option<i64>], me: i64) -> (r: Vec<i64>)
    ensures
        r@.to_set() == notify_set(mentioned@, anchor_actors@, me),
        r@.no_duplicates(),
{
    let mut r: Vec<i64> = Vec::new();
    let mut i: usize = 0;
    assert(r@.to_set() =~= mentioned@.subrange(0, 0).to_set().remove(me));
    while i < mentioned.len()
        invariant
            0 <= i <= mentioned@.len(),
            r@.to_set() == mentioned@.subrange(0, i as int).to_set().remove(me),
            r@.no_duplicates(),
        decreases mentioned.len() - i,
    {
        let ghost pre = mentioned@.subrange(0, i as int);
        let ghost next = mentioned@.subrange(0, i + 1);
        assert(next =~= pre.push(mentioned@[i as int]));
        let v = mentioned[i];
        if v != me {
            push_unique(&mut r, v);
        }
        proof {
            assert(next.to_set() =~= pre.to_set().insert(v)) by {
                assert forall|y: i64| next.to_set().contains(y) <==> pre.to_set().insert(v).contains(y) by {
                    if next.contains(y) && y != v {
                        let j = choose|j: int| 0 <= j < next.len() && next[j] == y;
                        assert(pre[j] == y);
                    }
                    if pre.contains(y) {
                        let j = choose|j: int| 0 <= j < pre.len() && pre[j] == y;
                        assert(next[j] == y);
                    }
                    if y == v {
                        assert(next[i as int] == v);
                    }
                }
            }
            assert(r@.to_set() =~= next.to_set().remove(me));
        }
        i = i + 1;
    }
    assert(mentioned@.subrange(0, mentioned@.len() as int) =~= mentioned@);
    let ghost base = mentioned@.to_set();
    let mut k: usize = 0;
    assert(r@.to_set() =~= (base + Set::new(|a: i64| anchor_actors@.subrange(0, 0).contains(Some(a)))).remove(me));
    while k < anchor_actors.len()
        invariant
            0 <= k <= anchor_actors@.len(),
            base == mentioned@.to_set(),
            r@.to_set() == (base + Set::new(|a: i64| anchor_actors@.subrange(0, k as int).contains(Some(a)))).remove(me),
            r@.no_duplicates(),
        decreases anchor_actors.len() - k,
    {
        let ghost pre = anchor_actors@.subrange(0, k as int);
        let ghost next = anchor_actors@.subrange(0, k + 1);
        assert(next =~= pre.push(anchor_actors@[k as int]));
        let a = anchor_actors[k];
        let ghost old_r = r@.to_set();
        match a {
            Some(v) => {
                if v != me {
                    push_unique(&mut r, v);
                }
            },
            None => {},
        }
        proof {
            let sp = Set::new(|x: i64| pre.contains(Some(x)));
            let sn = Set::new(|x: i64| next.contains(Some(x)));
            assert forall|y: i64| sn.contains(y) <==> (sp.contains(y) || a == Some(y)) by {
                if next.contains(Some(y)) {
                    let j = choose|j: int| 0 <= j < next.len() && next[j] == Some(y);
                    if j < pre.len() {
                        assert(pre[j] == Some(y));
                    }
                }
                if pre.contains(Some(y)) {
                    let j = choose|j: int| 0 <= j < pre.len() && pre[j] == Some(y);
                    assert(next[j] == Some(y));
                }
                if a == Some(y) {
                    assert(next[k as int] == Some(y));
                }
            }
            assert(r@.to_set() =~= (base + sn).remove(me));
        }
        k = k + 1;
    }
    assert(anchor_actors@.subrange(0, anchor_actors@.len() as int) =~= anchor_actors@);
    r
}

/// The log entry of a character mentioned by `id` in the place `location`.
pub fn mention_message(id: i64, location: &str) -> (r: String)
    ensures
        r@ == "id:"@ + int_text(id as int) + " から言及されました<br><a href=\"location/"@ + location@
            + "\">発言場所へ移動</a>"@,
{
    let mut out: Vec<char> = Vec::new();
    push_str(&mut out, "id:");
    push_int(&mut out, id);
    push_str(&mut out, " から言及されました<br><a href=\"location/");
    push_str(&mut out, location);
    push_str(&mut out, "\">発言場所へ移動</a>");
    string_from_chars(out)
}

/// The first 48 characters of a message (all of it when it is shorter).
pub open spec fn preview_of(raw: Seq<char>) -> Seq<char> {
    if raw.len() > 48 {
        raw.subrange(0, 48)
    } else {
        raw
    }
}

/// The address of the site: the local one in a debug build.
pub fn app_url(debug: bool) -> (r: &'static str)
    ensures
        debug ==> r@ == "http://ondyst.localhost"@,
        !debug ==> r@ == "https://ondyst.untroche.com"@,
{
    if debug {
        "http://ondyst.localhost"
    } else {
        "https://ondyst.untroche.com"
    }
}

/// The webhook message that tells the mentioned of a post: the start of the post and the
/// address of the site, under the poster's name and icon.
pub fn mention_webhook(raw_body: &str, name: &str, icon: &str, site: &str) -> (w: Webhook)
    ensures
        w.content@ == preview_of(raw_body@) + "\n\n"@ + site@,
        w.username matches Some(u) && u@ == name@ + " (one day's' talk)"@,
        w.avatar_url matches Some(a) && a@ == icon@,
{
    let chars = str_chars(raw_body);
    let n = if chars.len() > 48 {
        48
    } else {
        chars.len()
    };
    let mut content: Vec<char> = Vec::new();
    crate::text::push_range(&mut content, &chars, 0, n);
    assert(chars@.len() <= 48 ==> chars@.subrange(0, n as int) =~= chars@);
    push_str(&mut content, "\n\n");
    push_str(&mut content, site);
    let content = string_from_chars(content);
    let mut user = name.to_owned();
    user.append(" (one day's' talk)");
    Webhook::new(content.as_str()).username(user.as_str()).avatar_url(icon)
}

} // verus!
