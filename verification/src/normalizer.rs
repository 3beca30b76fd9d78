//! Surface-agnostic prompt handling: normalisation, validation, task-type
//! inference and goal extraction.
use vstd::prelude::*;

use crate::text::{
    chars_of, is_control, is_zero_width, is_ws, join, join_chars, lines, lines_chars, non_empty,
    non_empty_pieces, slice_chars, split, split_chars, string_of, trim, trim_chars, trim_end,
    trim_end_chars, whitespace, Separator, separates, lemma_split_nonempty, strip_cr, lemma_split_join,
    lemma_join_split, lemma_trim_within, lemma_trim_end_prefix, lemma_no_lines_empty,
    lemma_lines_no_newline, lemma_split_concat, lemma_split_single, lemma_join_concat,
    lemma_split_prefix, lemma_split_append,
    views, words, words_chars, control, zero_width,
};
use crate::types::{PromptError, TaskType};
use crate::unicode::{lowercase, to_lowercase};

verus! {

/// Maximum accepted prompt length, in characters, for free-text entry points.
pub const MAX_PROMPT_CHARS: usize = 10000;

/// Maximum length of the extracted goal, in characters.
pub const MAX_GOAL_CHARS: usize = 120;

// ── normalize ────────────────────────────────────────────────────────────────

/// Characters that survive cleaning: no zero-width characters, and no control
/// characters but newline and tab.
pub open spec fn kept_char(c: char) -> bool {
    !is_zero_width(c) && (!is_control(c) || c == '\n' || c == '\t')
}

/// `s` with every character that is not kept removed.
pub open spec fn clean(s: Seq<char>) -> Seq<char>
    decreases s.len(),
{
    if s.len() == 0 {
        s
    } else if kept_char(s.last()) {
        clean(s.drop_last()).push(s.last())
    } else {
        clean(s.drop_last())
    }
}

/// A line with its whitespace runs collapsed to single spaces and its ends trimmed.
pub open spec fn collapse_line(l: Seq<char>) -> Seq<char> {
    join(words(l), seq![' '])
}

/// The lines in order, with each blank line dropped that follows a blank line
/// or stands first.
pub open spec fn squeeze(ls: Seq<Seq<char>>) -> Seq<Seq<char>>
    decreases ls.len(),
{
    if ls.len() == 0 {
        ls
    } else {
        let r = squeeze(ls.drop_last());
        if ls.last().len() > 0 || (r.len() > 0 && r.last().len() > 0) {
            r.push(ls.last())
        } else {
            r
        }
    }
}

/// The lines without the blank lines at their end.
pub open spec fn drop_trailing_blank(ls: Seq<Seq<char>>) -> Seq<Seq<char>>
    decreases ls.len(),
{
    if ls.len() > 0 && ls.last().len() == 0 {
        drop_trailing_blank(ls.drop_last())
    } else {
        ls
    }
}

/// The normal form of a prompt: cleaned of control and zero-width characters,
/// each line's whitespace collapsed and trimmed, runs of blank lines collapsed
/// to one, no blank line first or last, the lines joined by newlines.
pub open spec fn normal_form(s: Seq<char>) -> Seq<char> {
    join(
        drop_trailing_blank(squeeze(lines(clean(s)).map_values(|l: Seq<char>| collapse_line(l)))),
        seq!['\n'],
    )
}

fn collapse_chars(l: &Vec<char>) -> (r: Vec<char>)
    ensures
        r@ == collapse_line(l@),
{
    let ws = words_chars(l);
    let sep = vec![' '];
    assert(sep@ =~= seq![' ']);
    join_chars(&ws, &sep)
}

/// Clean a prompt while preserving its line structure:
/// - strips control characters (except newlines and tabs) and zero-width characters
/// - collapses runs of spaces/tabs within each line and trims each line
/// - collapses runs of blank lines to a single blank line
/// - drops leading/trailing blank lines
pub fn normalize(raw: &str) -> (r: String)
    ensures
        r@ == normal_form(raw@),
        is_normalized(r@),
{
    proof {
        lemma_normal_form_is_normalized(raw@);
    }
    let chars = chars_of(raw);
    let n = chars.len();
    let mut cleaned: Vec<char> = Vec::new();
    let mut i: usize = 0;
    while i < n
        invariant
            i <= n == chars.len(),
            cleaned@ == clean(chars@.take(i as int)),
        decreases n - i,
    {
        let c = chars[i];
        assert(chars@.take(i + 1).drop_last() =~= chars@.take(i as int));
        if !zero_width(c) && (!control(c) || c == '\n' || c == '\t') {
            cleaned.push(c);
        }
        i += 1;
    }
    assert(chars@.take(n as int) =~= chars@);

    let ls = lines_chars(&cleaned);
    let ghost lv = views(ls@);
    let ghost all = lv.map_values(|l: Seq<char>| collapse_line(l));
    let m = ls.len();
    let mut collapsed: Vec<Vec<char>> = Vec::new();
    let mut k: usize = 0;
    while k < m
        invariant
            k <= m == ls@.len() == lv.len() == all.len(),
            lv == views(ls@),
            all == lv.map_values(|l: Seq<char>| collapse_line(l)),
            views(collapsed@) == all.take(k as int),
        decreases m - k,
    {
        let line = collapse_chars(&ls[k]);
        let ghost before = views(collapsed@);
        collapsed.push(line);
        assert(views(collapsed@) =~= before.push(line@));
        assert(all.take(k + 1) =~= all.take(k as int).push(all[k as int]));
        k += 1;
    }
    assert(all.take(m as int) =~= all);

    let mut kept: Vec<Vec<char>> = Vec::new();
    let mut k: usize = 0;
    while k < m
        invariant
            k <= m == collapsed@.len() == all.len(),
            views(collapsed@) == all,
            views(kept@) == squeeze(all.take(k as int)),
        decreases m - k,
    {
        let line = slice_chars(&collapsed[k], 0, collapsed[k].len());
        assert(line@ =~= all[k as int]);
        assert(all.take(k + 1).drop_last() =~= all.take(k as int));
        let ghost before = views(kept@);
        let prev_blank = kept.len() == 0 || kept[kept.len() - 1].len() == 0;
        if line.len() > 0 || !prev_blank {
            kept.push(line);
            assert(views(kept@) =~= before.push(line@));
        }
        k += 1;
    }
    assert(all.take(m as int) =~= all);
    let ghost squeezed = views(kept@);
    while kept.len() > 0 && kept[kept.len() - 1].len() == 0
        invariant
            drop_trailing_blank(views(kept@)) == drop_trailing_blank(squeezed),
        decreases kept.len(),
    {
        let ghost before = views(kept@);
        kept.pop();
        assert(views(kept@) =~= before.drop_last());
    }
    let nl = vec!['\n'];
    assert(nl@ =~= seq!['\n']);
    let joined = join_chars(&kept, &nl);
    string_of(&joined)
}

} // verus!

verus! {

// ── validate ─────────────────────────────────────────────────────────────────

/// The verdict on a normalised prompt: empty, too long (with its length in
/// characters and the cap), or accepted.
pub open spec fn validation(normalized: Seq<char>) -> Result<(), PromptError> {
    if normalized.len() == 0 {
        Err(PromptError::Empty)
    } else if normalized.len() > MAX_PROMPT_CHARS {
        Err(PromptError::TooLong { len: normalized.len() as usize, max: MAX_PROMPT_CHARS })
    } else {
        Ok(())
    }
}

/// Reject prompts that are empty after normalisation or beyond the length cap.
pub fn validate(normalized: &str) -> (r: Result<(), PromptError>)
    ensures
        r == validation(normalized@),
{
    if normalized.is_empty() {
        return Err(PromptError::Empty);
    }
    let len = chars_of(normalized).len();
    if len > MAX_PROMPT_CHARS {
        return Err(PromptError::TooLong { len, max: MAX_PROMPT_CHARS });
    }
    Ok(())
}

// ── infer_task_type ──────────────────────────────────────────────────────────

/// Words that signal a Jira delete — checked first, so "close" maps to Delete.
pub open spec fn delete_keywords() -> Seq<Seq<char>> {
    seq!["delete"@, "remove"@, "archive"@, "cancel"@, "drop"@, "close project"@]
}

/// Words that signal a Jira update — checked second.
pub open spec fn update_keywords() -> Seq<Seq<char>> {
    seq![
        "update"@,
        "change"@,
        "modify"@,
        "edit"@,
        "move"@,
        "reassign"@,
        "standup"@,
        "complete"@,
        "transition"@,
        "fix"@,
        "resolve"@,
        "adjust"@,
        "close ticket"@,
    ]
}

/// Words that signal a Jira insert — checked last.
pub open spec fn insert_keywords() -> Seq<Seq<char>> {
    seq![
        "create"@,
        "add"@,
        "new"@,
        "init"@,
        "start"@,
        "log"@,
        "insert"@,
        "push"@,
        "open ticket"@,
    ]
}

pub open spec fn str_views(v: Seq<&str>) -> Seq<Seq<char>> {
    v.map_values(|s: &str| s@)
}

fn delete_keyword_list() -> (v: Vec<&'static str>)
    ensures
        str_views(v@) == delete_keywords(),
{
    let v = vec!["delete", "remove", "archive", "cancel", "drop", "close project"];
    assert(str_views(v@) =~= delete_keywords());
    v
}

fn update_keyword_list() -> (v: Vec<&'static str>)
    ensures
        str_views(v@) == update_keywords(),
{
    let v = vec![
        "update",
        "change",
        "modify",
        "edit",
        "move",
        "reassign",
        "standup",
        "complete",
        "transition",
        "fix",
        "resolve",
        "adjust",
        "close ticket",
    ];
    assert(str_views(v@) =~= update_keywords());
    v
}

fn insert_keyword_list() -> (v: Vec<&'static str>)
    ensures
        str_views(v@) == insert_keywords(),
{
    let v = vec!["create", "add", "new", "init", "start", "log", "insert", "push", "open ticket"];
    assert(str_views(v@) =~= insert_keywords());
    v
}

/// The phrase `ph` stands in `ws` as consecutive words from position `i` on.
pub open spec fn phrase_at(ws: Seq<Seq<char>>, ph: Seq<Seq<char>>, i: int) -> bool {
    0 <= i && i + ph.len() <= ws.len() && ws.subrange(i, i + ph.len()) == ph
}

/// The phrase `ph` stands in `ws` as consecutive whole words somewhere.
pub open spec fn contains_phrase(ws: Seq<Seq<char>>, ph: Seq<Seq<char>>) -> bool {
    exists|i: int| phrase_at(ws, ph, i)
}

/// Some keyword, taken as its whitespace-separated words, stands in `ws`.
pub open spec fn has_keyword(ws: Seq<Seq<char>>, keywords: Seq<Seq<char>>) -> bool {
    exists|k: int| 0 <= k < keywords.len() && contains_phrase(ws, words(keywords[k]))
}

/// The words of a text for task-type inference: the maximal runs of
/// alphanumeric characters of its lowercase form.
pub open spec fn task_words(text: Seq<char>) -> Seq<Seq<char>> {
    non_empty(split(lowercase(text), Separator::NonAlphanumeric))
}

/// The task type that words signal: Delete if a delete keyword stands in them
/// as whole words, else Update for an update keyword, else Insert for an
/// insert keyword, else Get.
pub open spec fn words_task_type(ws: Seq<Seq<char>>) -> TaskType {
    if has_keyword(ws, delete_keywords()) {
        TaskType::Delete
    } else if has_keyword(ws, update_keywords()) {
        TaskType::Update
    } else if has_keyword(ws, insert_keywords()) {
        TaskType::Insert
    } else {
        TaskType::Get
    }
}

/// The task type of a free-text prompt: the one that its words signal.
pub open spec fn inferred_task_type(text: Seq<char>) -> TaskType {
    words_task_type(task_words(text))
}

/// The rank of a task type by how much it writes: Get < Insert < Update < Delete.
pub open spec fn task_rank(t: TaskType) -> int {
    match t {
        TaskType::Get => 0,
        TaskType::Insert => 1,
        TaskType::Update => 2,
        TaskType::Delete => 3,
    }
}

proof fn lemma_keyword_in_joined(a: Seq<Seq<char>>, b: Seq<Seq<char>>, keywords: Seq<Seq<char>>)
    ensures
        has_keyword(a, keywords) ==> has_keyword(a + b, keywords),
        has_keyword(b, keywords) ==> has_keyword(a + b, keywords),
{
    let ab = a + b;
    if has_keyword(a, keywords) {
        let k = choose|k: int| 0 <= k < keywords.len() && contains_phrase(a, words(keywords[k]));
        let ph = words(keywords[k]);
        let i = choose|i: int| phrase_at(a, ph, i);
        assert(ab.subrange(i, i + ph.len()) =~= a.subrange(i, i + ph.len()));
        assert(phrase_at(ab, ph, i));
        assert(contains_phrase(ab, words(keywords[k])));
    }
    if has_keyword(b, keywords) {
        let k = choose|k: int| 0 <= k < keywords.len() && contains_phrase(b, words(keywords[k]));
        let ph = words(keywords[k]);
        let i = choose|i: int| phrase_at(b, ph, i);
        let j = i + a.len();
        assert(ab.subrange(j, j + ph.len()) =~= b.subrange(i, i + ph.len()));
        assert(phrase_at(ab, ph, j));
        assert(contains_phrase(ab, words(keywords[k])));
    }
}

/// More words never make a request read as less of a write: the task type of
/// two runs of words put together ranks at least as high as that of each.
pub proof fn more_words_never_lower_the_rank(a: Seq<Seq<char>>, b: Seq<Seq<char>>)
    ensures
        task_rank(words_task_type(a + b)) >= task_rank(words_task_type(a)),
        task_rank(words_task_type(a + b)) >= task_rank(words_task_type(b)),
{
    lemma_keyword_in_joined(a, b, delete_keywords());
    lemma_keyword_in_joined(a, b, update_keywords());
    lemma_keyword_in_joined(a, b, insert_keywords());
}

/// A word of lowercase letters is one word.
proof fn lemma_letters_word(s: Seq<char>)
    requires
        s.len() > 0,
        forall|i: int| 0 <= i < s.len() ==> 'a' <= #[trigger] s[i] && s[i] <= 'z',
    ensures
        words(s) == seq![s],
{
    assert forall|i: int| 0 <= i < s.len() implies !separates(Separator::Whitespace, #[trigger] s[i]) by {
        assert('a' <= s[i] && s[i] <= 'z');
    }
    lemma_split_single(s, Separator::Whitespace);
    lemma_non_empty_unchanged(seq![s]);
}

/// Two words of lowercase letters with a space between are those two words.
proof fn lemma_two_words(x: Seq<char>, y: Seq<char>, xy: Seq<char>)
    requires
        x.len() > 0,
        y.len() > 0,
        forall|i: int| 0 <= i < x.len() ==> 'a' <= #[trigger] x[i] && x[i] <= 'z',
        forall|i: int| 0 <= i < y.len() ==> 'a' <= #[trigger] y[i] && y[i] <= 'z',
        xy == x + seq![' '] + y,
    ensures
        words(xy) == seq![x, y],
{
    let ws = Separator::Whitespace;
    assert forall|i: int| 0 <= i < x.len() implies !separates(ws, #[trigger] x[i]) by {
        assert('a' <= x[i] && x[i] <= 'z');
    }
    assert forall|i: int| 0 <= i < y.len() implies !separates(ws, #[trigger] y[i]) by {
        assert('a' <= y[i] && y[i] <= 'z');
    }
    lemma_split_single(x, ws);
    lemma_split_single(y, ws);
    lemma_split_concat(x, ' ', y, ws);
    assert(seq![x] + seq![y] =~= seq![x, y]);
    lemma_non_empty_unchanged(seq![x, y]);
}

proof fn lemma_delete_words()
    ensures
        forall|k: int|
            0 <= k < delete_keywords().len() ==> words(#[trigger] delete_keywords()[k]) == (if k < 5 {
                seq![delete_keywords()[k]]
            } else {
                seq!["close"@, "project"@]
            }),
        delete_keywords().len() == 6,
{
    reveal_strlit("add");
    reveal_strlit("adjust");
    reveal_strlit("archive");
    reveal_strlit("cancel");
    reveal_strlit("change");
    reveal_strlit("close");
    reveal_strlit("complete");
    reveal_strlit("create");
    reveal_strlit("delete");
    reveal_strlit("drop");
    reveal_strlit("edit");
    reveal_strlit("fix");
    reveal_strlit("init");
    reveal_strlit("insert");
    reveal_strlit("log");
    reveal_strlit("modify");
    reveal_strlit("move");
    reveal_strlit("new");
    reveal_strlit("open");
    reveal_strlit("project");
    reveal_strlit("push");
    reveal_strlit("reassign");
    reveal_strlit("remove");
    reveal_strlit("resolve");
    reveal_strlit("standup");
    reveal_strlit("start");
    reveal_strlit("ticket");
    reveal_strlit("transition");
    reveal_strlit("update");
    reveal_strlit("close project");
    reveal_strlit("close ticket");
    reveal_strlit("open ticket");
    assert(delete_keywords()[0] == "delete"@);
    lemma_letters_word("delete"@);
    assert(delete_keywords()[1] == "remove"@);
    lemma_letters_word("remove"@);
    assert(delete_keywords()[2] == "archive"@);
    lemma_letters_word("archive"@);
    assert(delete_keywords()[3] == "cancel"@);
    lemma_letters_word("cancel"@);
    assert(delete_keywords()[4] == "drop"@);
    lemma_letters_word("drop"@);
    assert(delete_keywords()[5] == "close project"@);
    assert("close project"@ =~= "close"@ + seq![' '] + "project"@);
    lemma_two_words("close"@, "project"@, "close project"@);
    assert forall|k: int| 0 <= k < delete_keywords().len() implies words(#[trigger] delete_keywords()[k]) == (if k < 5 {
        seq![delete_keywords()[k]]
    } else {
        seq!["close"@, "project"@]
    }) by {
        if k == 0 {} else if k == 1 {} else if k == 2 {} else if k == 3 {} else if k == 4 {} else if k == 5 {}
    }
}

proof fn lemma_update_words()
    ensures
        forall|k: int|
            0 <= k < update_keywords().len() ==> words(#[trigger] update_keywords()[k]) == (if k < 12 {
                seq![update_keywords()[k]]
            } else {
                seq!["close"@, "ticket"@]
            }),
        update_keywords().len() == 13,
{
    reveal_strlit("add");
    reveal_strlit("adjust");
    reveal_strlit("archive");
    reveal_strlit("cancel");
    reveal_strlit("change");
    reveal_strlit("close");
    reveal_strlit("complete");
    reveal_strlit("create");
    reveal_strlit("delete");
    reveal_strlit("drop");
    reveal_strlit("edit");
    reveal_strlit("fix");
    reveal_strlit("init");
    reveal_strlit("insert");
    reveal_strlit("log");
    reveal_strlit("modify");
    reveal_strlit("move");
    reveal_strlit("new");
    reveal_strlit("open");
    reveal_strlit("project");
    reveal_strlit("push");
    reveal_strlit("reassign");
    reveal_strlit("remove");
    reveal_strlit("resolve");
    reveal_strlit("standup");
    reveal_strlit("start");
    reveal_strlit("ticket");
    reveal_strlit("transition");
    reveal_strlit("update");
    reveal_strlit("close project");
    reveal_strlit("close ticket");
    reveal_strlit("open ticket");
    assert(update_keywords()[0] == "update"@);
    lemma_letters_word("update"@);
    assert(update_keywords()[1] == "change"@);
    lemma_letters_word("change"@);
    assert(update_keywords()[2] == "modify"@);
    lemma_letters_word("modify"@);
    assert(update_keywords()[3] == "edit"@);
    lemma_letters_word("edit"@);
    assert(update_keywords()[4] == "move"@);
    lemma_letters_word("move"@);
    assert(update_keywords()[5] == "reassign"@);
    lemma_letters_word("reassign"@);
    assert(update_keywords()[6] == "standup"@);
    lemma_letters_word("standup"@);
    assert(update_keywords()[7] == "complete"@);
    lemma_letters_word("complete"@);
    assert(update_keywords()[8] == "transition"@);
    lemma_letters_word("transition"@);
    assert(update_keywords()[9] == "fix"@);
    lemma_letters_word("fix"@);
    assert(update_keywords()[10] == "resolve"@);
    lemma_letters_word("resolve"@);
    assert(update_keywords()[11] == "adjust"@);
    lemma_letters_word("adjust"@);
    assert(update_keywords()[12] == "close ticket"@);
    assert("close ticket"@ =~= "close"@ + seq![' '] + "ticket"@);
    lemma_two_words("close"@, "ticket"@, "close ticket"@);
    assert forall|k: int| 0 <= k < update_keywords().len() implies words(#[trigger] update_keywords()[k]) == (if k < 12 {
        seq![update_keywords()[k]]
    } else {
        seq!["close"@, "ticket"@]
    }) by {
        if k == 0 {} else if k == 1 {} else if k == 2 {} else if k == 3 {} else if k == 4 {} else if k == 5 {} else if k == 6 {} else if k == 7 {} else if k == 8 {} else if k == 9 {} else if k == 10 {} else if k == 11 {} else if k == 12 {}
    }
}

proof fn lemma_insert_words()
    ensures
        forall|k: int|
            0 <= k < insert_keywords().len() ==> words(#[trigger] insert_keywords()[k]) == (if k < 8 {
                seq![insert_keywords()[k]]
            } else {
                seq!["open"@, "ticket"@]
            }),
        insert_keywords().len() == 9,
{
    reveal_strlit("add");
    reveal_strlit("adjust");
    reveal_strlit("archive");
    reveal_strlit("cancel");
    reveal_strlit("change");
    reveal_strlit("close");
    reveal_strlit("complete");
    reveal_strlit("create");
    reveal_strlit("delete");
    reveal_strlit("drop");
    reveal_strlit("edit");
    reveal_strlit("fix");
    reveal_strlit("init");
    reveal_strlit("insert");
    reveal_strlit("log");
    reveal_strlit("modify");
    reveal_strlit("move");
    reveal_strlit("new");
    reveal_strlit("open");
    reveal_strlit("project");
    reveal_strlit("push");
    reveal_strlit("reassign");
    reveal_strlit("remove");
    reveal_strlit("resolve");
    reveal_strlit("standup");
    reveal_strlit("start");
    reveal_strlit("ticket");
    reveal_strlit("transition");
    reveal_strlit("update");
    reveal_strlit("close project");
    reveal_strlit("close ticket");
    reveal_strlit("open ticket");
    assert(insert_keywords()[0] == "create"@);
    lemma_letters_word("create"@);
    assert(insert_keywords()[1] == "add"@);
    lemma_letters_word("add"@);
    assert(insert_keywords()[2] == "new"@);
    lemma_letters_word("new"@);
    assert(insert_keywords()[3] == "init"@);
    lemma_letters_word("init"@);
    assert(insert_keywords()[4] == "start"@);
    lemma_letters_word("start"@);
    assert(insert_keywords()[5] == "log"@);
    lemma_letters_word("log"@);
    assert(insert_keywords()[6] == "insert"@);
    lemma_letters_word("insert"@);
    assert(insert_keywords()[7] == "push"@);
    lemma_letters_word("push"@);
    assert(insert_keywords()[8] == "open ticket"@);
    assert("open ticket"@ =~= "open"@ + seq![' '] + "ticket"@);
    lemma_two_words("open"@, "ticket"@, "open ticket"@);
    assert forall|k: int| 0 <= k < insert_keywords().len() implies words(#[trigger] insert_keywords()[k]) == (if k < 8 {
        seq![insert_keywords()[k]]
    } else {
        seq!["open"@, "ticket"@]
    }) by {
        if k == 0 {} else if k == 1 {} else if k == 2 {} else if k == 3 {} else if k == 4 {} else if k == 5 {} else if k == 6 {} else if k == 7 {} else if k == 8 {}
    }
}

/// A keyword whose words stand in `ws` at `i` is found there.
proof fn lemma_hit(ws: Seq<Seq<char>>, keywords: Seq<Seq<char>>, k: int, i: int)
    requires
        0 <= k < keywords.len(),
        phrase_at(ws, words(keywords[k]), i),
    ensures
        has_keyword(ws, keywords),
{
    assert(contains_phrase(ws, words(keywords[k])));
}

/// The phrase `ph` stands in `a + ph + b` right after `a`.
proof fn lemma_phrase_between(a: Seq<Seq<char>>, ph: Seq<Seq<char>>, b: Seq<Seq<char>>)
    ensures
        phrase_at(a + ph + b, ph, a.len() as int),
{
    assert((a + ph + b).subrange(a.len() as int, (a.len() + ph.len()) as int) =~= ph);
}

/// A single word that is no one-word keyword matches no keyword.
proof fn lemma_no_single_hit(w: Seq<char>, keywords: Seq<Seq<char>>)
    requires
        forall|k: int|
            0 <= k < keywords.len() ==> (#[trigger] words(keywords[k])).len() >= 1 && (words(
                keywords[k],
            ).len() == 1 ==> words(keywords[k])[0] != w),
    ensures
        !has_keyword(seq![w], keywords),
{
    if has_keyword(seq![w], keywords) {
        let k = choose|k: int| 0 <= k < keywords.len() && contains_phrase(seq![w], words(keywords[k]));
        let ph = words(keywords[k]);
        let i = choose|i: int| phrase_at(seq![w], ph, i);
        assert(ph.len() == 1 && i == 0);
        assert(seq![w].subrange(0, 1)[0] == w);
        assert(ph[0] == w);
    }
}

/// No delete keyword matches a one-word update or insert keyword alone.
proof fn lemma_no_delete_single(w: Seq<char>)
    requires
        w == "update"@ || w == "change"@ || w == "modify"@ || w == "edit"@ || w == "move"@ || w == "reassign"@ || w == "standup"@ || w == "complete"@ || w == "transition"@ || w == "fix"@ || w == "resolve"@ || w == "adjust"@ || w == "create"@ || w == "add"@ || w == "new"@ || w == "init"@ || w == "start"@ || w == "log"@ || w == "insert"@ || w == "push"@,
    ensures
        !has_keyword(seq![w], delete_keywords()),
{
    reveal_strlit("add");
    reveal_strlit("adjust");
    reveal_strlit("archive");
    reveal_strlit("cancel");
    reveal_strlit("change");
    reveal_strlit("close");
    reveal_strlit("complete");
    reveal_strlit("create");
    reveal_strlit("delete");
    reveal_strlit("drop");
    reveal_strlit("edit");
    reveal_strlit("fix");
    reveal_strlit("init");
    reveal_strlit("insert");
    reveal_strlit("log");
    reveal_strlit("modify");
    reveal_strlit("move");
    reveal_strlit("new");
    reveal_strlit("open");
    reveal_strlit("project");
    reveal_strlit("push");
    reveal_strlit("reassign");
    reveal_strlit("remove");
    reveal_strlit("resolve");
    reveal_strlit("standup");
    reveal_strlit("start");
    reveal_strlit("ticket");
    reveal_strlit("transition");
    reveal_strlit("update");
    reveal_strlit("close project");
    reveal_strlit("close ticket");
    reveal_strlit("open ticket");
    lemma_delete_words();
    let K = delete_keywords();
    if w == "update"@ {
        assert forall|k: int| 0 <= k < K.len() implies (#[trigger] words(K[k])).len() >= 1 && (words(
            K[k],
        ).len() == 1 ==> words(K[k])[0] != w) by {
            if k == 0 {
                assert(words(K[k]) == seq!["delete"@]); assert("delete"@[0] != "update"@[0]);
            } else if k == 1 {
                assert(words(K[k]) == seq!["remove"@]); assert("remove"@[0] != "update"@[0]);
            } else if k == 2 {
                assert(words(K[k]) == seq!["archive"@]); assert("archive"@.len() != "update"@.len());
            } else if k == 3 {
                assert(words(K[k]) == seq!["cancel"@]); assert("cancel"@[0] != "update"@[0]);
            } else if k == 4 {
                assert(words(K[k]) == seq!["drop"@]); assert("drop"@.len() != "update"@.len());
            } else {
                assert(words(K[k]) == seq!["close"@, "project"@]);
            }
        }
    } else if w == "change"@ {
        assert forall|k: int| 0 <= k < K.len() implies (#[trigger] words(K[k])).len() >= 1 && (words(
            K[k],
        ).len() == 1 ==> words(K[k])[0] != w) by {
            if k == 0 {
                assert(words(K[k]) == seq!["delete"@]); assert("delete"@[0] != "change"@[0]);
            } else if k == 1 {
                assert(words(K[k]) == seq!["remove"@]); assert("remove"@[0] != "change"@[0]);
            } else if k == 2 {
                assert(words(K[k]) == seq!["archive"@]); assert("archive"@.len() != "change"@.len());
            } else if k == 3 {
                assert(words(K[k]) == seq!["cancel"@]); assert("cancel"@[1] != "change"@[1]);
            } else if k == 4 {
                assert(words(K[k]) == seq!["drop"@]); assert("drop"@.len() != "change"@.len());
            } else {
                assert(words(K[k]) == seq!["close"@, "project"@]);
            }
        }
    } else if w == "modify"@ {
        assert forall|k: int| 0 <= k < K.len() implies (#[trigger] words(K[k])).len() >= 1 && (words(
            K[k],
        ).len() == 1 ==> words(K[k])[0] != w) by {
            if k == 0 {
                assert(words(K[k]) == seq!["delete"@]); assert("delete"@[0] != "modify"@[0]);
            } else if k == 1 {
                assert(words(K[k]) == seq!["remove"@]); assert("remove"@[0] != "modify"@[0]);
            } else if k == 2 {
                assert(words(K[k]) == seq!["archive"@]); assert("archive"@.len() != "modify"@.len());
            } else if k == 3 {
                assert(words(K[k]) == seq!["cancel"@]); assert("cancel"@[0] != "modify"@[0]);
            } else if k == 4 {
                assert(words(K[k]) == seq!["drop"@]); assert("drop"@.len() != "modify"@.len());
            } else {
                assert(words(K[k]) == seq!["close"@, "project"@]);
            }
        }
    } else if w == "edit"@ {
        assert forall|k: int| 0 <= k < K.len() implies (#[trigger] words(K[k])).len() >= 1 && (words(
            K[k],
        ).len() == 1 ==> words(K[k])[0] != w) by {
            if k == 0 {
                assert(words(K[k]) == seq!["delete"@]); assert("delete"@.len() != "edit"@.len());
            } else if k == 1 {
                assert(words(K[k]) == seq!["remove"@]); assert("remove"@.len() != "edit"@.len());
            } else if k == 2 {
                assert(words(K[k]) == seq!["archive"@]); assert("archive"@.len() != "edit"@.len());
            } else if k == 3 {
                assert(words(K[k]) == seq!["cancel"@]); assert("cancel"@.len() != "edit"@.len());
            } else if k == 4 {
                assert(words(K[k]) == seq!["drop"@]); assert("drop"@[0] != "edit"@[0]);
            } else {
                assert(words(K[k]) == seq!["close"@, "project"@]);
            }
        }
    } else if w == "move"@ {
        assert forall|k: int| 0 <= k < K.len() implies (#[trigger] words(K[k])).len() >= 1 && (words(
            K[k],
        ).len() == 1 ==> words(K[k])[0] != w) by {
            if k == 0 {
                assert(words(K[k]) == seq!["delete"@]); assert("delete"@.len() != "move"@.len());
            } else if k == 1 {
                assert(words(K[k]) == seq!["remove"@]); assert("remove"@.len() != "move"@.len());
            } else if k == 2 {
                assert(words(K[k]) == seq!["archive"@]); assert("archive"@.len() != "move"@.len());
            } else if k == 3 {
                assert(words(K[k]) == seq!["cancel"@]); assert("cancel"@.len() != "move"@.len());
            } else if k == 4 {
                assert(words(K[k]) == seq!["drop"@]); assert("drop"@[0] != "move"@[0]);
            } else {
                assert(words(K[k]) == seq!["close"@, "project"@]);
            }
        }
    } else if w == "reassign"@ {
        assert forall|k: int| 0 <= k < K.len() implies (#[trigger] words(K[k])).len() >= 1 && (words(
            K[k],
        ).len() == 1 ==> words(K[k])[0] != w) by {
            if k == 0 {
                assert(words(K[k]) == seq!["delete"@]); assert("delete"@.len() != "reassign"@.len());
            } else if k == 1 {
                assert(words(K[k]) == seq!["remove"@]); assert("remove"@.len() != "reassign"@.len());
            } else if k == 2 {
                assert(words(K[k]) == seq!["archive"@]); assert("archive"@.len() != "reassign"@.len());
            } else if k == 3 {
                assert(words(K[k]) == seq!["cancel"@]); assert("cancel"@.len() != "reassign"@.len());
            } else if k == 4 {
                assert(words(K[k]) == seq!["drop"@]); assert("drop"@.len() != "reassign"@.len());
            } else {
                assert(words(K[k]) == seq!["close"@, "project"@]);
            }
        }
    } else if w == "standup"@ {
        assert forall|k: int| 0 <= k < K.len() implies (#[trigger] words(K[k])).len() >= 1 && (words(
            K[k],
        ).len() == 1 ==> words(K[k])[0] != w) by {
            if k == 0 {
                assert(words(K[k]) == seq!["delete"@]); assert("delete"@.len() != "standup"@.len());
            } else if k == 1 {
                assert(words(K[k]) == seq!["remove"@]); assert("remove"@.len() != "standup"@.len());
            } else if k == 2 {
                assert(words(K[k]) == seq!["archive"@]); assert("archive"@[0] != "standup"@[0]);
            } else if k == 3 {
                assert(words(K[k]) == seq!["cancel"@]); assert("cancel"@.len() != "standup"@.len());
            } else if k == 4 {
                assert(words(K[k]) == seq!["drop"@]); assert("drop"@.len() != "standup"@.len());
            } else {
                assert(words(K[k]) == seq!["close"@, "project"@]);
            }
        }
    } else if w == "complete"@ {
        assert forall|k: int| 0 <= k < K.len() implies (#[trigger] words(K[k])).len() >= 1 && (words(
            K[k],
        ).len() == 1 ==> words(K[k])[0] != w) by {
            if k == 0 {
                assert(words(K[k]) == seq!["delete"@]); assert("delete"@.len() != "complete"@.len());
            } else if k == 1 {
                assert(words(K[k]) == seq!["remove"@]); assert("remove"@.len() != "complete"@.len());
            } else if k == 2 {
                assert(words(K[k]) == seq!["archive"@]); assert("archive"@.len() != "complete"@.len());
            } else if k == 3 {
                assert(words(K[k]) == seq!["cancel"@]); assert("cancel"@.len() != "complete"@.len());
            } else if k == 4 {
                assert(words(K[k]) == seq!["drop"@]); assert("drop"@.len() != "complete"@.len());
            } else {
                assert(words(K[k]) == seq!["close"@, "project"@]);
            }
        }
    } else if w == "transition"@ {
        assert forall|k: int| 0 <= k < K.len() implies (#[trigger] words(K[k])).len() >= 1 && (words(
            K[k],
        ).len() == 1 ==> words(K[k])[0] != w) by {
            if k == 0 {
                assert(words(K[k]) == seq!["delete"@]); assert("delete"@.len() != "transition"@.len());
            } else if k == 1 {
                assert(words(K[k]) == seq!["remove"@]); assert("remove"@.len() != "transition"@.len());
            } else if k == 2 {
                assert(words(K[k]) == seq!["archive"@]); assert("archive"@.len() != "transition"@.len());
            } else if k == 3 {
                assert(words(K[k]) == seq!["cancel"@]); assert("cancel"@.len() != "transition"@.len());
            } else if k == 4 {
                assert(words(K[k]) == seq!["drop"@]); assert("drop"@.len() != "transition"@.len());
            } else {
                assert(words(K[k]) == seq!["close"@, "project"@]);
            }
        }
    } else if w == "fix"@ {
        assert forall|k: int| 0 <= k < K.len() implies (#[trigger] words(K[k])).len() >= 1 && (words(
            K[k],
        ).len() == 1 ==> words(K[k])[0] != w) by {
            if k == 0 {
                assert(words(K[k]) == seq!["delete"@]); assert("delete"@.len() != "fix"@.len());
            } else if k == 1 {
                assert(words(K[k]) == seq!["remove"@]); assert("remove"@.len() != "fix"@.len());
            } else if k == 2 {
                assert(words(K[k]) == seq!["archive"@]); assert("archive"@.len() != "fix"@.len());
            } else if k == 3 {
                assert(words(K[k]) == seq!["cancel"@]); assert("cancel"@.len() != "fix"@.len());
            } else if k == 4 {
                assert(words(K[k]) == seq!["drop"@]); assert("drop"@.len() != "fix"@.len());
            } else {
                assert(words(K[k]) == seq!["close"@, "project"@]);
            }
        }
    } else if w == "resolve"@ {
        assert forall|k: int| 0 <= k < K.len() implies (#[trigger] words(K[k])).len() >= 1 && (words(
            K[k],
        ).len() == 1 ==> words(K[k])[0] != w) by {
            if k == 0 {
                assert(words(K[k]) == seq!["delete"@]); assert("delete"@.len() != "resolve"@.len());
            } else if k == 1 {
                assert(words(K[k]) == seq!["remove"@]); assert("remove"@.len() != "resolve"@.len());
            } else if k == 2 {
                assert(words(K[k]) == seq!["archive"@]); assert("archive"@[0] != "resolve"@[0]);
            } else if k == 3 {
                assert(words(K[k]) == seq!["cancel"@]); assert("cancel"@.len() != "resolve"@.len());
            } else if k == 4 {
                assert(words(K[k]) == seq!["drop"@]); assert("drop"@.len() != "resolve"@.len());
            } else {
                assert(words(K[k]) == seq!["close"@, "project"@]);
            }
        }
    } else if w == "adjust"@ {
        assert forall|k: int| 0 <= k < K.len() implies (#[trigger] words(K[k])).len() >= 1 && (words(
            K[k],
        ).len() == 1 ==> words(K[k])[0] != w) by {
            if k == 0 {
                assert(words(K[k]) == seq!["delete"@]); assert("delete"@[0] != "adjust"@[0]);
            } else if k == 1 {
                assert(words(K[k]) == seq!["remove"@]); assert("remove"@[0] != "adjust"@[0]);
            } else if k == 2 {
                assert(words(K[k]) == seq!["archive"@]); assert("archive"@.len() != "adjust"@.len());
            } else if k == 3 {
                assert(words(K[k]) == seq!["cancel"@]); assert("cancel"@[0] != "adjust"@[0]);
            } else if k == 4 {
                assert(words(K[k]) == seq!["drop"@]); assert("drop"@.len() != "adjust"@.len());
            } else {
                assert(words(K[k]) == seq!["close"@, "project"@]);
            }
        }
    } else if w == "create"@ {
        assert forall|k: int| 0 <= k < K.len() implies (#[trigger] words(K[k])).len() >= 1 && (words(
            K[k],
        ).len() == 1 ==> words(K[k])[0] != w) by {
            if k == 0 {
                assert(words(K[k]) == seq!["delete"@]); assert("delete"@[0] != "create"@[0]);
            } else if k == 1 {
                assert(words(K[k]) == seq!["remove"@]); assert("remove"@[0] != "create"@[0]);
            } else if k == 2 {
                assert(words(K[k]) == seq!["archive"@]); assert("archive"@.len() != "create"@.len());
            } else if k == 3 {
                assert(words(K[k]) == seq!["cancel"@]); assert("cancel"@[1] != "create"@[1]);
            } else if k == 4 {
                assert(words(K[k]) == seq!["drop"@]); assert("drop"@.len() != "create"@.len());
            } else {
                assert(words(K[k]) == seq!["close"@, "project"@]);
            }
        }
    } else if w == "add"@ {
        assert forall|k: int| 0 <= k < K.len() implies (#[trigger] words(K[k])).len() >= 1 && (words(
            K[k],
        ).len() == 1 ==> words(K[k])[0] != w) by {
            if k == 0 {
                assert(words(K[k]) == seq!["delete"@]); assert("delete"@.len() != "add"@.len());
            } else if k == 1 {
                assert(words(K[k]) == seq!["remove"@]); assert("remove"@.len() != "add"@.len());
            } else if k == 2 {
                assert(words(K[k]) == seq!["archive"@]); assert("archive"@.len() != "add"@.len());
            } else if k == 3 {
                assert(words(K[k]) == seq!["cancel"@]); assert("cancel"@.len() != "add"@.len());
            } else if k == 4 {
                assert(words(K[k]) == seq!["drop"@]); assert("drop"@.len() != "add"@.len());
            } else {
                assert(words(K[k]) == seq!["close"@, "project"@]);
            }
        }
    } else if w == "new"@ {
        assert forall|k: int| 0 <= k < K.len() implies (#[trigger] words(K[k])).len() >= 1 && (words(
            K[k],
        ).len() == 1 ==> words(K[k])[0] != w) by {
            if k == 0 {
                assert(words(K[k]) == seq!["delete"@]); assert("delete"@.len() != "new"@.len());
            } else if k == 1 {
                assert(words(K[k]) == seq!["remove"@]); assert("remove"@.len() != "new"@.len());
            } else if k == 2 {
                assert(words(K[k]) == seq!["archive"@]); assert("archive"@.len() != "new"@.len());
            } else if k == 3 {
                assert(words(K[k]) == seq!["cancel"@]); assert("cancel"@.len() != "new"@.len());
            } else if k == 4 {
                assert(words(K[k]) == seq!["drop"@]); assert("drop"@.len() != "new"@.len());
            } else {
                assert(words(K[k]) == seq!["close"@, "project"@]);
            }
        }
    } else if w == "init"@ {
        assert forall|k: int| 0 <= k < K.len() implies (#[trigger] words(K[k])).len() >= 1 && (words(
            K[k],
        ).len() == 1 ==> words(K[k])[0] != w) by {
            if k == 0 {
                assert(words(K[k]) == seq!["delete"@]); assert("delete"@.len() != "init"@.len());
            } else if k == 1 {
                assert(words(K[k]) == seq!["remove"@]); assert("remove"@.len() != "init"@.len());
            } else if k == 2 {
                assert(words(K[k]) == seq!["archive"@]); assert("archive"@.len() != "init"@.len());
            } else if k == 3 {
                assert(words(K[k]) == seq!["cancel"@]); assert("cancel"@.len() != "init"@.len());
            } else if k == 4 {
                assert(words(K[k]) == seq!["drop"@]); assert("drop"@[0] != "init"@[0]);
            } else {
                assert(words(K[k]) == seq!["close"@, "project"@]);
            }
        }
    } else if w == "start"@ {
        assert forall|k: int| 0 <= k < K.len() implies (#[trigger] words(K[k])).len() >= 1 && (words(
            K[k],
        ).len() == 1 ==> words(K[k])[0] != w) by {
            if k == 0 {
                assert(words(K[k]) == seq!["delete"@]); assert("delete"@.len() != "start"@.len());
            } else if k == 1 {
                assert(words(K[k]) == seq!["remove"@]); assert("remove"@.len() != "start"@.len());
            } else if k == 2 {
                assert(words(K[k]) == seq!["archive"@]); assert("archive"@.len() != "start"@.len());
            } else if k == 3 {
                assert(words(K[k]) == seq!["cancel"@]); assert("cancel"@.len() != "start"@.len());
            } else if k == 4 {
                assert(words(K[k]) == seq!["drop"@]); assert("drop"@.len() != "start"@.len());
            } else {
                assert(words(K[k]) == seq!["close"@, "project"@]);
            }
        }
    } else if w == "log"@ {
        assert forall|k: int| 0 <= k < K.len() implies (#[trigger] words(K[k])).len() >= 1 && (words(
            K[k],
        ).len() == 1 ==> words(K[k])[0] != w) by {
            if k == 0 {
                assert(words(K[k]) == seq!["delete"@]); assert("delete"@.len() != "log"@.len());
            } else if k == 1 {
                assert(words(K[k]) == seq!["remove"@]); assert("remove"@.len() != "log"@.len());
            } else if k == 2 {
                assert(words(K[k]) == seq!["archive"@]); assert("archive"@.len() != "log"@.len());
            } else if k == 3 {
                assert(words(K[k]) == seq!["cancel"@]); assert("cancel"@.len() != "log"@.len());
            } else if k == 4 {
                assert(words(K[k]) == seq!["drop"@]); assert("drop"@.len() != "log"@.len());
            } else {
                assert(words(K[k]) == seq!["close"@, "project"@]);
            }
        }
    } else if w == "insert"@ {
        assert forall|k: int| 0 <= k < K.len() implies (#[trigger] words(K[k])).len() >= 1 && (words(
            K[k],
        ).len() == 1 ==> words(K[k])[0] != w) by {
            if k == 0 {
                assert(words(K[k]) == seq!["delete"@]); assert("delete"@[0] != "insert"@[0]);
            } else if k == 1 {
                assert(words(K[k]) == seq!["remove"@]); assert("remove"@[0] != "insert"@[0]);
            } else if k == 2 {
                assert(words(K[k]) == seq!["archive"@]); assert("archive"@.len() != "insert"@.len());
            } else if k == 3 {
                assert(words(K[k]) == seq!["cancel"@]); assert("cancel"@[0] != "insert"@[0]);
            } else if k == 4 {
                assert(words(K[k]) == seq!["drop"@]); assert("drop"@.len() != "insert"@.len());
            } else {
                assert(words(K[k]) == seq!["close"@, "project"@]);
            }
        }
    } else if w == "push"@ {
        assert forall|k: int| 0 <= k < K.len() implies (#[trigger] words(K[k])).len() >= 1 && (words(
            K[k],
        ).len() == 1 ==> words(K[k])[0] != w) by {
            if k == 0 {
                assert(words(K[k]) == seq!["delete"@]); assert("delete"@.len() != "push"@.len());
            } else if k == 1 {
                assert(words(K[k]) == seq!["remove"@]); assert("remove"@.len() != "push"@.len());
            } else if k == 2 {
                assert(words(K[k]) == seq!["archive"@]); assert("archive"@.len() != "push"@.len());
            } else if k == 3 {
                assert(words(K[k]) == seq!["cancel"@]); assert("cancel"@.len() != "push"@.len());
            } else if k == 4 {
                assert(words(K[k]) == seq!["drop"@]); assert("drop"@[0] != "push"@[0]);
            } else {
                assert(words(K[k]) == seq!["close"@, "project"@]);
            }
        }
    }
    lemma_no_single_hit(w, delete_keywords());
}

/// No update keyword matches a one-word insert keyword alone.
proof fn lemma_no_update_single(w: Seq<char>)
    requires
        w == "create"@ || w == "add"@ || w == "new"@ || w == "init"@ || w == "start"@ || w == "log"@ || w == "insert"@ || w == "push"@,
    ensures
        !has_keyword(seq![w], update_keywords()),
{
    reveal_strlit("add");
    reveal_strlit("adjust");
    reveal_strlit("archive");
    reveal_strlit("cancel");
    reveal_strlit("change");
    reveal_strlit("close");
    reveal_strlit("complete");
    reveal_strlit("create");
    reveal_strlit("delete");
    reveal_strlit("drop");
    reveal_strlit("edit");
    reveal_strlit("fix");
    reveal_strlit("init");
    reveal_strlit("insert");
    reveal_strlit("log");
    reveal_strlit("modify");
    reveal_strlit("move");
    reveal_strlit("new");
    reveal_strlit("open");
    reveal_strlit("project");
    reveal_strlit("push");
    reveal_strlit("reassign");
    reveal_strlit("remove");
    reveal_strlit("resolve");
    reveal_strlit("standup");
    reveal_strlit("start");
    reveal_strlit("ticket");
    reveal_strlit("transition");
    reveal_strlit("update");
    reveal_strlit("close project");
    reveal_strlit("close ticket");
    reveal_strlit("open ticket");
    lemma_update_words();
    let K = update_keywords();
    if w == "create"@ {
        assert forall|k: int| 0 <= k < K.len() implies (#[trigger] words(K[k])).len() >= 1 && (words(
            K[k],
        ).len() == 1 ==> words(K[k])[0] != w) by {
            if k == 0 {
                assert(words(K[k]) == seq!["update"@]); assert("update"@[0] != "create"@[0]);
            } else if k == 1 {
                assert(words(K[k]) == seq!["change"@]); assert("change"@[1] != "create"@[1]);
            } else if k == 2 {
                assert(words(K[k]) == seq!["modify"@]); assert("modify"@[0] != "create"@[0]);
            } else if k == 3 {
                assert(words(K[k]) == seq!["edit"@]); assert("edit"@.len() != "create"@.len());
            } else if k == 4 {
                assert(words(K[k]) == seq!["move"@]); assert("move"@.len() != "create"@.len());
            } else if k == 5 {
                assert(words(K[k]) == seq!["reassign"@]); assert("reassign"@.len() != "create"@.len());
            } else if k == 6 {
                assert(words(K[k]) == seq!["standup"@]); assert("standup"@.len() != "create"@.len());
            } else if k == 7 {
                assert(words(K[k]) == seq!["complete"@]); assert("complete"@.len() != "create"@.len());
            } else if k == 8 {
                assert(words(K[k]) == seq!["transition"@]); assert("transition"@.len() != "create"@.len());
            } else if k == 9 {
                assert(words(K[k]) == seq!["fix"@]); assert("fix"@.len() != "create"@.len());
            } else if k == 10 {
                assert(words(K[k]) == seq!["resolve"@]); assert("resolve"@.len() != "create"@.len());
            } else if k == 11 {
                assert(words(K[k]) == seq!["adjust"@]); assert("adjust"@[0] != "create"@[0]);
            } else {
                assert(words(K[k]) == seq!["close"@, "ticket"@]);
            }
        }
    } else if w == "add"@ {
        assert forall|k: int| 0 <= k < K.len() implies (#[trigger] words(K[k])).len() >= 1 && (words(
            K[k],
        ).len() == 1 ==> words(K[k])[0] != w) by {
            if k == 0 {
                assert(words(K[k]) == seq!["update"@]); assert("update"@.len() != "add"@.len());
            } else if k == 1 {
                assert(words(K[k]) == seq!["change"@]); assert("change"@.len() != "add"@.len());
            } else if k == 2 {
                assert(words(K[k]) == seq!["modify"@]); assert("modify"@.len() != "add"@.len());
            } else if k == 3 {
                assert(words(K[k]) == seq!["edit"@]); assert("edit"@.len() != "add"@.len());
            } else if k == 4 {
                assert(words(K[k]) == seq!["move"@]); assert("move"@.len() != "add"@.len());
            } else if k == 5 {
                assert(words(K[k]) == seq!["reassign"@]); assert("reassign"@.len() != "add"@.len());
            } else if k == 6 {
                assert(words(K[k]) == seq!["standup"@]); assert("standup"@.len() != "add"@.len());
            } else if k == 7 {
                assert(words(K[k]) == seq!["complete"@]); assert("complete"@.len() != "add"@.len());
            } else if k == 8 {
                assert(words(K[k]) == seq!["transition"@]); assert("transition"@.len() != "add"@.len());
            } else if k == 9 {
                assert(words(K[k]) == seq!["fix"@]); assert("fix"@[0] != "add"@[0]);
            } else if k == 10 {
                assert(words(K[k]) == seq!["resolve"@]); assert("resolve"@.len() != "add"@.len());
            } else if k == 11 {
                assert(words(K[k]) == seq!["adjust"@]); assert("adjust"@.len() != "add"@.len());
            } else {
                assert(words(K[k]) == seq!["close"@, "ticket"@]);
            }
        }
    } else if w == "new"@ {
        assert forall|k: int| 0 <= k < K.len() implies (#[trigger] words(K[k])).len() >= 1 && (words(
            K[k],
        ).len() == 1 ==> words(K[k])[0] != w) by {
            if k == 0 {
                assert(words(K[k]) == seq!["update"@]); assert("update"@.len() != "new"@.len());
            } else if k == 1 {
                assert(words(K[k]) == seq!["change"@]); assert("change"@.len() != "new"@.len());
            } else if k == 2 {
                assert(words(K[k]) == seq!["modify"@]); assert("modify"@.len() != "new"@.len());
            } else if k == 3 {
                assert(words(K[k]) == seq!["edit"@]); assert("edit"@.len() != "new"@.len());
            } else if k == 4 {
                assert(words(K[k]) == seq!["move"@]); assert("move"@.len() != "new"@.len());
            } else if k == 5 {
                assert(words(K[k]) == seq!["reassign"@]); assert("reassign"@.len() != "new"@.len());
            } else if k == 6 {
                assert(words(K[k]) == seq!["standup"@]); assert("standup"@.len() != "new"@.len());
            } else if k == 7 {
                assert(words(K[k]) == seq!["complete"@]); assert("complete"@.len() != "new"@.len());
            } else if k == 8 {
                assert(words(K[k]) == seq!["transition"@]); assert("transition"@.len() != "new"@.len());
            } else if k == 9 {
                assert(words(K[k]) == seq!["fix"@]); assert("fix"@[0] != "new"@[0]);
            } else if k == 10 {
                assert(words(K[k]) == seq!["resolve"@]); assert("resolve"@.len() != "new"@.len());
            } else if k == 11 {
                assert(words(K[k]) == seq!["adjust"@]); assert("adjust"@.len() != "new"@.len());
            } else {
                assert(words(K[k]) == seq!["close"@, "ticket"@]);
            }
        }
    } else if w == "init"@ {
        assert forall|k: int| 0 <= k < K.len() implies (#[trigger] words(K[k])).len() >= 1 && (words(
            K[k],
        ).len() == 1 ==> words(K[k])[0] != w) by {
            if k == 0 {
                assert(words(K[k]) == seq!["update"@]); assert("update"@.len() != "init"@.len());
            } else if k == 1 {
                assert(words(K[k]) == seq!["change"@]); assert("change"@.len() != "init"@.len());
            } else if k == 2 {
                assert(words(K[k]) == seq!["modify"@]); assert("modify"@.len() != "init"@.len());
            } else if k == 3 {
                assert(words(K[k]) == seq!["edit"@]); assert("edit"@[0] != "init"@[0]);
            } else if k == 4 {
                assert(words(K[k]) == seq!["move"@]); assert("move"@[0] != "init"@[0]);
            } else if k == 5 {
                assert(words(K[k]) == seq!["reassign"@]); assert("reassign"@.len() != "init"@.len());
            } else if k == 6 {
                assert(words(K[k]) == seq!["standup"@]); assert("standup"@.len() != "init"@.len());
            } else if k == 7 {
                assert(words(K[k]) == seq!["complete"@]); assert("complete"@.len() != "init"@.len());
            } else if k == 8 {
                assert(words(K[k]) == seq!["transition"@]); assert("transition"@.len() != "init"@.len());
            } else if k == 9 {
                assert(words(K[k]) == seq!["fix"@]); assert("fix"@.len() != "init"@.len());
            } else if k == 10 {
                assert(words(K[k]) == seq!["resolve"@]); assert("resolve"@.len() != "init"@.len());
            } else if k == 11 {
                assert(words(K[k]) == seq!["adjust"@]); assert("adjust"@.len() != "init"@.len());
            } else {
                assert(words(K[k]) == seq!["close"@, "ticket"@]);
            }
        }
    } else if w == "start"@ {
        assert forall|k: int| 0 <= k < K.len() implies (#[trigger] words(K[k])).len() >= 1 && (words(
            K[k],
        ).len() == 1 ==> words(K[k])[0] != w) by {
            if k == 0 {
                assert(words(K[k]) == seq!["update"@]); assert("update"@.len() != "start"@.len());
            } else if k == 1 {
                assert(words(K[k]) == seq!["change"@]); assert("change"@.len() != "start"@.len());
            } else if k == 2 {
                assert(words(K[k]) == seq!["modify"@]); assert("modify"@.len() != "start"@.len());
            } else if k == 3 {
                assert(words(K[k]) == seq!["edit"@]); assert("edit"@.len() != "start"@.len());
            } else if k == 4 {
                assert(words(K[k]) == seq!["move"@]); assert("move"@.len() != "start"@.len());
            } else if k == 5 {
                assert(words(K[k]) == seq!["reassign"@]); assert("reassign"@.len() != "start"@.len());
            } else if k == 6 {
                assert(words(K[k]) == seq!["standup"@]); assert("standup"@.len() != "start"@.len());
            } else if k == 7 {
                assert(words(K[k]) == seq!["complete"@]); assert("complete"@.len() != "start"@.len());
            } else if k == 8 {
                assert(words(K[k]) == seq!["transition"@]); assert("transition"@.len() != "start"@.len());
            } else if k == 9 {
                assert(words(K[k]) == seq!["fix"@]); assert("fix"@.len() != "start"@.len());
            } else if k == 10 {
                assert(words(K[k]) == seq!["resolve"@]); assert("resolve"@.len() != "start"@.len());
            } else if k == 11 {
                assert(words(K[k]) == seq!["adjust"@]); assert("adjust"@.len() != "start"@.len());
            } else {
                assert(words(K[k]) == seq!["close"@, "ticket"@]);
            }
        }
    } else if w == "log"@ {
        assert forall|k: int| 0 <= k < K.len() implies (#[trigger] words(K[k])).len() >= 1 && (words(
            K[k],
        ).len() == 1 ==> words(K[k])[0] != w) by {
            if k == 0 {
                assert(words(K[k]) == seq!["update"@]); assert("update"@.len() != "log"@.len());
            } else if k == 1 {
                assert(words(K[k]) == seq!["change"@]); assert("change"@.len() != "log"@.len());
            } else if k == 2 {
                assert(words(K[k]) == seq!["modify"@]); assert("modify"@.len() != "log"@.len());
            } else if k == 3 {
                assert(words(K[k]) == seq!["edit"@]); assert("edit"@.len() != "log"@.len());
            } else if k == 4 {
                assert(words(K[k]) == seq!["move"@]); assert("move"@.len() != "log"@.len());
            } else if k == 5 {
                assert(words(K[k]) == seq!["reassign"@]); assert("reassign"@.len() != "log"@.len());
            } else if k == 6 {
                assert(words(K[k]) == seq!["standup"@]); assert("standup"@.len() != "log"@.len());
            } else if k == 7 {
                assert(words(K[k]) == seq!["complete"@]); assert("complete"@.len() != "log"@.len());
            } else if k == 8 {
                assert(words(K[k]) == seq!["transition"@]); assert("transition"@.len() != "log"@.len());
            } else if k == 9 {
                assert(words(K[k]) == seq!["fix"@]); assert("fix"@[0] != "log"@[0]);
            } else if k == 10 {
                assert(words(K[k]) == seq!["resolve"@]); assert("resolve"@.len() != "log"@.len());
            } else if k == 11 {
                assert(words(K[k]) == seq!["adjust"@]); assert("adjust"@.len() != "log"@.len());
            } else {
                assert(words(K[k]) == seq!["close"@, "ticket"@]);
            }
        }
    } else if w == "insert"@ {
        assert forall|k: int| 0 <= k < K.len() implies (#[trigger] words(K[k])).len() >= 1 && (words(
            K[k],
        ).len() == 1 ==> words(K[k])[0] != w) by {
            if k == 0 {
                assert(words(K[k]) == seq!["update"@]); assert("update"@[0] != "insert"@[0]);
            } else if k == 1 {
                assert(words(K[k]) == seq!["change"@]); assert("change"@[0] != "insert"@[0]);
            } else if k == 2 {
                assert(words(K[k]) == seq!["modify"@]); assert("modify"@[0] != "insert"@[0]);
            } else if k == 3 {
                assert(words(K[k]) == seq!["edit"@]); assert("edit"@.len() != "insert"@.len());
            } else if k == 4 {
                assert(words(K[k]) == seq!["move"@]); assert("move"@.len() != "insert"@.len());
            } else if k == 5 {
                assert(words(K[k]) == seq!["reassign"@]); assert("reassign"@.len() != "insert"@.len());
            } else if k == 6 {
                assert(words(K[k]) == seq!["standup"@]); assert("standup"@.len() != "insert"@.len());
            } else if k == 7 {
                assert(words(K[k]) == seq!["complete"@]); assert("complete"@.len() != "insert"@.len());
            } else if k == 8 {
                assert(words(K[k]) == seq!["transition"@]); assert("transition"@.len() != "insert"@.len());
            } else if k == 9 {
                assert(words(K[k]) == seq!["fix"@]); assert("fix"@.len() != "insert"@.len());
            } else if k == 10 {
                assert(words(K[k]) == seq!["resolve"@]); assert("resolve"@.len() != "insert"@.len());
            } else if k == 11 {
                assert(words(K[k]) == seq!["adjust"@]); assert("adjust"@[0] != "insert"@[0]);
            } else {
                assert(words(K[k]) == seq!["close"@, "ticket"@]);
            }
        }
    } else if w == "push"@ {
        assert forall|k: int| 0 <= k < K.len() implies (#[trigger] words(K[k])).len() >= 1 && (words(
            K[k],
        ).len() == 1 ==> words(K[k])[0] != w) by {
            if k == 0 {
                assert(words(K[k]) == seq!["update"@]); assert("update"@.len() != "push"@.len());
            } else if k == 1 {
                assert(words(K[k]) == seq!["change"@]); assert("change"@.len() != "push"@.len());
            } else if k == 2 {
                assert(words(K[k]) == seq!["modify"@]); assert("modify"@.len() != "push"@.len());
            } else if k == 3 {
                assert(words(K[k]) == seq!["edit"@]); assert("edit"@[0] != "push"@[0]);
            } else if k == 4 {
                assert(words(K[k]) == seq!["move"@]); assert("move"@[0] != "push"@[0]);
            } else if k == 5 {
                assert(words(K[k]) == seq!["reassign"@]); assert("reassign"@.len() != "push"@.len());
            } else if k == 6 {
                assert(words(K[k]) == seq!["standup"@]); assert("standup"@.len() != "push"@.len());
            } else if k == 7 {
                assert(words(K[k]) == seq!["complete"@]); assert("complete"@.len() != "push"@.len());
            } else if k == 8 {
                assert(words(K[k]) == seq!["transition"@]); assert("transition"@.len() != "push"@.len());
            } else if k == 9 {
                assert(words(K[k]) == seq!["fix"@]); assert("fix"@.len() != "push"@.len());
            } else if k == 10 {
                assert(words(K[k]) == seq!["resolve"@]); assert("resolve"@.len() != "push"@.len());
            } else if k == 11 {
                assert(words(K[k]) == seq!["adjust"@]); assert("adjust"@.len() != "push"@.len());
            } else {
                assert(words(K[k]) == seq!["close"@, "ticket"@]);
            }
        }
    }
    lemma_no_single_hit(w, update_keywords());
}

/// A two-word phrase matches a keyword list alone only as its own two words.
proof fn lemma_no_pair_hit(xy: Seq<Seq<char>>, keywords: Seq<Seq<char>>)
    requires
        xy.len() == 2,
        forall|k: int|
            0 <= k < keywords.len() ==> (#[trigger] words(keywords[k])).len() >= 1 && (words(
                keywords[k],
            ).len() == 1 ==> words(keywords[k])[0] != xy[0] && words(keywords[k])[0] != xy[1])
                && (words(keywords[k]).len() == 2 ==> words(keywords[k]) != xy),
    ensures
        !has_keyword(xy, keywords),
{
    if has_keyword(xy, keywords) {
        let k = choose|k: int| 0 <= k < keywords.len() && contains_phrase(xy, words(keywords[k]));
        let ph = words(keywords[k]);
        let i = choose|i: int| phrase_at(xy, ph, i);
        assert(1 <= ph.len() <= 2);
        if ph.len() == 1 {
            assert(xy.subrange(i, i + 1)[0] == xy[i]);
            assert(ph[0] == xy[i]);
        } else {
            assert(xy.subrange(0, 2) =~= xy);
        }
    }
}

/// Neither `close ticket` nor `open ticket` alone matches a delete keyword.
proof fn lemma_no_delete_pair(xy: Seq<Seq<char>>)
    requires
        xy == seq!["close"@, "ticket"@] || xy == seq!["open"@, "ticket"@],
    ensures
        !has_keyword(xy, delete_keywords()),
{
    reveal_strlit("add");
    reveal_strlit("adjust");
    reveal_strlit("archive");
    reveal_strlit("cancel");
    reveal_strlit("change");
    reveal_strlit("close");
    reveal_strlit("complete");
    reveal_strlit("create");
    reveal_strlit("delete");
    reveal_strlit("drop");
    reveal_strlit("edit");
    reveal_strlit("fix");
    reveal_strlit("init");
    reveal_strlit("insert");
    reveal_strlit("log");
    reveal_strlit("modify");
    reveal_strlit("move");
    reveal_strlit("new");
    reveal_strlit("open");
    reveal_strlit("project");
    reveal_strlit("push");
    reveal_strlit("reassign");
    reveal_strlit("remove");
    reveal_strlit("resolve");
    reveal_strlit("standup");
    reveal_strlit("start");
    reveal_strlit("ticket");
    reveal_strlit("transition");
    reveal_strlit("update");
    reveal_strlit("close project");
    reveal_strlit("close ticket");
    reveal_strlit("open ticket");
    lemma_delete_words();
    let K = delete_keywords();
    if xy == seq!["close"@, "ticket"@] {
        assert(xy[0] == "close"@ && xy[1] == "ticket"@);
        assert forall|k: int| 0 <= k < K.len() implies (#[trigger] words(K[k])).len() >= 1 && (words(
            K[k],
        ).len() == 1 ==> words(K[k])[0] != xy[0] && words(K[k])[0] != xy[1]) && (words(K[k]).len()
            == 2 ==> words(K[k]) != xy) by {
            if k == 0 {
                assert(words(K[k]) == seq!["delete"@]); assert("delete"@.len() != "close"@.len()); assert("delete"@[0] != "ticket"@[0]);
            } else if k == 1 {
                assert(words(K[k]) == seq!["remove"@]); assert("remove"@.len() != "close"@.len()); assert("remove"@[0] != "ticket"@[0]);
            } else if k == 2 {
                assert(words(K[k]) == seq!["archive"@]); assert("archive"@.len() != "close"@.len()); assert("archive"@.len() != "ticket"@.len());
            } else if k == 3 {
                assert(words(K[k]) == seq!["cancel"@]); assert("cancel"@.len() != "close"@.len()); assert("cancel"@[0] != "ticket"@[0]);
            } else if k == 4 {
                assert(words(K[k]) == seq!["drop"@]); assert("drop"@.len() != "close"@.len()); assert("drop"@.len() != "ticket"@.len());
            } else {
                assert(words(K[k]) == seq!["close"@, "project"@]); assert("project"@.len() != "ticket"@.len()); assert(words(K[k])[1] != xy[1]);
            }
        }
    } else if xy == seq!["open"@, "ticket"@] {
        assert(xy[0] == "open"@ && xy[1] == "ticket"@);
        assert forall|k: int| 0 <= k < K.len() implies (#[trigger] words(K[k])).len() >= 1 && (words(
            K[k],
        ).len() == 1 ==> words(K[k])[0] != xy[0] && words(K[k])[0] != xy[1]) && (words(K[k]).len()
            == 2 ==> words(K[k]) != xy) by {
            if k == 0 {
                assert(words(K[k]) == seq!["delete"@]); assert("delete"@.len() != "open"@.len()); assert("delete"@[0] != "ticket"@[0]);
            } else if k == 1 {
                assert(words(K[k]) == seq!["remove"@]); assert("remove"@.len() != "open"@.len()); assert("remove"@[0] != "ticket"@[0]);
            } else if k == 2 {
                assert(words(K[k]) == seq!["archive"@]); assert("archive"@.len() != "open"@.len()); assert("archive"@.len() != "ticket"@.len());
            } else if k == 3 {
                assert(words(K[k]) == seq!["cancel"@]); assert("cancel"@.len() != "open"@.len()); assert("cancel"@[0] != "ticket"@[0]);
            } else if k == 4 {
                assert(words(K[k]) == seq!["drop"@]); assert("drop"@[0] != "open"@[0]); assert("drop"@.len() != "ticket"@.len());
            } else {
                assert(words(K[k]) == seq!["close"@, "project"@]); assert("project"@.len() != "ticket"@.len()); assert(words(K[k])[1] != xy[1]);
            }
        }
    }
    lemma_no_pair_hit(xy, delete_keywords());
}

/// `open ticket` alone matches no update keyword.
proof fn lemma_no_update_pair(xy: Seq<Seq<char>>)
    requires
        xy == seq!["open"@, "ticket"@],
    ensures
        !has_keyword(xy, update_keywords()),
{
    reveal_strlit("add");
    reveal_strlit("adjust");
    reveal_strlit("archive");
    reveal_strlit("cancel");
    reveal_strlit("change");
    reveal_strlit("close");
    reveal_strlit("complete");
    reveal_strlit("create");
    reveal_strlit("delete");
    reveal_strlit("drop");
    reveal_strlit("edit");
    reveal_strlit("fix");
    reveal_strlit("init");
    reveal_strlit("insert");
    reveal_strlit("log");
    reveal_strlit("modify");
    reveal_strlit("move");
    reveal_strlit("new");
    reveal_strlit("open");
    reveal_strlit("project");
    reveal_strlit("push");
    reveal_strlit("reassign");
    reveal_strlit("remove");
    reveal_strlit("resolve");
    reveal_strlit("standup");
    reveal_strlit("start");
    reveal_strlit("ticket");
    reveal_strlit("transition");
    reveal_strlit("update");
    reveal_strlit("close project");
    reveal_strlit("close ticket");
    reveal_strlit("open ticket");
    lemma_update_words();
    let K = update_keywords();
    if xy == seq!["open"@, "ticket"@] {
        assert(xy[0] == "open"@ && xy[1] == "ticket"@);
        assert forall|k: int| 0 <= k < K.len() implies (#[trigger] words(K[k])).len() >= 1 && (words(
            K[k],
        ).len() == 1 ==> words(K[k])[0] != xy[0] && words(K[k])[0] != xy[1]) && (words(K[k]).len()
            == 2 ==> words(K[k]) != xy) by {
            if k == 0 {
                assert(words(K[k]) == seq!["update"@]); assert("update"@.len() != "open"@.len()); assert("update"@[0] != "ticket"@[0]);
            } else if k == 1 {
                assert(words(K[k]) == seq!["change"@]); assert("change"@.len() != "open"@.len()); assert("change"@[0] != "ticket"@[0]);
            } else if k == 2 {
                assert(words(K[k]) == seq!["modify"@]); assert("modify"@.len() != "open"@.len()); assert("modify"@[0] != "ticket"@[0]);
            } else if k == 3 {
                assert(words(K[k]) == seq!["edit"@]); assert("edit"@[0] != "open"@[0]); assert("edit"@.len() != "ticket"@.len());
            } else if k == 4 {
                assert(words(K[k]) == seq!["move"@]); assert("move"@[0] != "open"@[0]); assert("move"@.len() != "ticket"@.len());
            } else if k == 5 {
                assert(words(K[k]) == seq!["reassign"@]); assert("reassign"@.len() != "open"@.len()); assert("reassign"@.len() != "ticket"@.len());
            } else if k == 6 {
                assert(words(K[k]) == seq!["standup"@]); assert("standup"@.len() != "open"@.len()); assert("standup"@.len() != "ticket"@.len());
            } else if k == 7 {
                assert(words(K[k]) == seq!["complete"@]); assert("complete"@.len() != "open"@.len()); assert("complete"@.len() != "ticket"@.len());
            } else if k == 8 {
                assert(words(K[k]) == seq!["transition"@]); assert("transition"@.len() != "open"@.len()); assert("transition"@.len() != "ticket"@.len());
            } else if k == 9 {
                assert(words(K[k]) == seq!["fix"@]); assert("fix"@.len() != "open"@.len()); assert("fix"@.len() != "ticket"@.len());
            } else if k == 10 {
                assert(words(K[k]) == seq!["resolve"@]); assert("resolve"@.len() != "open"@.len()); assert("resolve"@.len() != "ticket"@.len());
            } else if k == 11 {
                assert(words(K[k]) == seq!["adjust"@]); assert("adjust"@.len() != "open"@.len()); assert("adjust"@[0] != "ticket"@[0]);
            } else {
                assert(words(K[k]) == seq!["close"@, "ticket"@]); assert("close"@.len() != "open"@.len()); assert(words(K[k])[0] != xy[0]);
            }
        }
    }
    lemma_no_pair_hit(xy, update_keywords());
}

/// Every keyword of the inference lists classifies the text it stands in:
/// each delete keyword anywhere among the words gives Delete; each update
/// keyword gives at least Update, and exactly Update on its own; each insert
/// keyword gives at least Insert, and exactly Insert on its own. The
/// two-word keywords (`close project`, `close ticket`, `open ticket`) count
/// as their two words next to each other.
pub proof fn keywords_classify(w: Seq<char>, a: Seq<Seq<char>>, b: Seq<Seq<char>>)
    ensures
        (w == "delete"@ || w == "remove"@ || w == "archive"@ || w == "cancel"@ || w == "drop"@) ==> words_task_type(a + seq![w] + b) == TaskType::Delete,
        (w == "update"@ || w == "change"@ || w == "modify"@ || w == "edit"@ || w == "move"@ || w == "reassign"@ || w == "standup"@ || w == "complete"@ || w == "transition"@ || w == "fix"@ || w == "resolve"@ || w == "adjust"@) ==> words_task_type(seq![w]) == TaskType::Update && task_rank(
            words_task_type(a + seq![w] + b),
        ) >= 2,
        (w == "create"@ || w == "add"@ || w == "new"@ || w == "init"@ || w == "start"@ || w == "log"@ || w == "insert"@ || w == "push"@) ==> words_task_type(seq![w]) == TaskType::Insert && task_rank(
            words_task_type(a + seq![w] + b),
        ) >= 1,
        words_task_type(a + seq!["close"@, "project"@] + b) == TaskType::Delete,
        words_task_type(seq!["close"@, "ticket"@]) == TaskType::Update && task_rank(
            words_task_type(a + seq!["close"@, "ticket"@] + b),
        ) >= 2,
        words_task_type(seq!["open"@, "ticket"@]) == TaskType::Insert && task_rank(
            words_task_type(a + seq!["open"@, "ticket"@] + b),
        ) >= 1,
{
    reveal_strlit("add");
    reveal_strlit("adjust");
    reveal_strlit("archive");
    reveal_strlit("cancel");
    reveal_strlit("change");
    reveal_strlit("close");
    reveal_strlit("complete");
    reveal_strlit("create");
    reveal_strlit("delete");
    reveal_strlit("drop");
    reveal_strlit("edit");
    reveal_strlit("fix");
    reveal_strlit("init");
    reveal_strlit("insert");
    reveal_strlit("log");
    reveal_strlit("modify");
    reveal_strlit("move");
    reveal_strlit("new");
    reveal_strlit("open");
    reveal_strlit("project");
    reveal_strlit("push");
    reveal_strlit("reassign");
    reveal_strlit("remove");
    reveal_strlit("resolve");
    reveal_strlit("standup");
    reveal_strlit("start");
    reveal_strlit("ticket");
    reveal_strlit("transition");
    reveal_strlit("update");
    reveal_strlit("close project");
    reveal_strlit("close ticket");
    reveal_strlit("open ticket");
    lemma_delete_words();
    lemma_update_words();
    lemma_insert_words();
    let e = Seq::<Seq<char>>::empty();
    // a one-word delete keyword
        if w == "delete"@ {
            lemma_phrase_between(a, seq![w], b);
            lemma_hit(a + seq![w] + b, delete_keywords(), 0, a.len() as int);
            lemma_phrase_between(Seq::<Seq<char>>::empty(), seq![w], Seq::<Seq<char>>::empty());
            assert(Seq::<Seq<char>>::empty() + seq![w] + Seq::<Seq<char>>::empty() =~= seq![w]);
            lemma_hit(seq![w], delete_keywords(), 0, 0);
        } else if w == "remove"@ {
            lemma_phrase_between(a, seq![w], b);
            lemma_hit(a + seq![w] + b, delete_keywords(), 1, a.len() as int);
            lemma_phrase_between(Seq::<Seq<char>>::empty(), seq![w], Seq::<Seq<char>>::empty());
            assert(Seq::<Seq<char>>::empty() + seq![w] + Seq::<Seq<char>>::empty() =~= seq![w]);
            lemma_hit(seq![w], delete_keywords(), 1, 0);
        } else if w == "archive"@ {
            lemma_phrase_between(a, seq![w], b);
            lemma_hit(a + seq![w] + b, delete_keywords(), 2, a.len() as int);
            lemma_phrase_between(Seq::<Seq<char>>::empty(), seq![w], Seq::<Seq<char>>::empty());
            assert(Seq::<Seq<char>>::empty() + seq![w] + Seq::<Seq<char>>::empty() =~= seq![w]);
            lemma_hit(seq![w], delete_keywords(), 2, 0);
        } else if w == "cancel"@ {
            lemma_phrase_between(a, seq![w], b);
            lemma_hit(a + seq![w] + b, delete_keywords(), 3, a.len() as int);
            lemma_phrase_between(Seq::<Seq<char>>::empty(), seq![w], Seq::<Seq<char>>::empty());
            assert(Seq::<Seq<char>>::empty() + seq![w] + Seq::<Seq<char>>::empty() =~= seq![w]);
            lemma_hit(seq![w], delete_keywords(), 3, 0);
        } else if w == "drop"@ {
            lemma_phrase_between(a, seq![w], b);
            lemma_hit(a + seq![w] + b, delete_keywords(), 4, a.len() as int);
            lemma_phrase_between(Seq::<Seq<char>>::empty(), seq![w], Seq::<Seq<char>>::empty());
            assert(Seq::<Seq<char>>::empty() + seq![w] + Seq::<Seq<char>>::empty() =~= seq![w]);
            lemma_hit(seq![w], delete_keywords(), 4, 0);
        }
    // a one-word update keyword: no delete keyword is that word alone
        if w == "update"@ {
            lemma_phrase_between(a, seq![w], b);
            lemma_hit(a + seq![w] + b, update_keywords(), 0, a.len() as int);
            lemma_phrase_between(Seq::<Seq<char>>::empty(), seq![w], Seq::<Seq<char>>::empty());
            assert(Seq::<Seq<char>>::empty() + seq![w] + Seq::<Seq<char>>::empty() =~= seq![w]);
            lemma_hit(seq![w], update_keywords(), 0, 0);
            lemma_no_delete_single(w);
        } else if w == "change"@ {
            lemma_phrase_between(a, seq![w], b);
            lemma_hit(a + seq![w] + b, update_keywords(), 1, a.len() as int);
            lemma_phrase_between(Seq::<Seq<char>>::empty(), seq![w], Seq::<Seq<char>>::empty());
            assert(Seq::<Seq<char>>::empty() + seq![w] + Seq::<Seq<char>>::empty() =~= seq![w]);
            lemma_hit(seq![w], update_keywords(), 1, 0);
            lemma_no_delete_single(w);
        } else if w == "modify"@ {
            lemma_phrase_between(a, seq![w], b);
            lemma_hit(a + seq![w] + b, update_keywords(), 2, a.len() as int);
            lemma_phrase_between(Seq::<Seq<char>>::empty(), seq![w], Seq::<Seq<char>>::empty());
            assert(Seq::<Seq<char>>::empty() + seq![w] + Seq::<Seq<char>>::empty() =~= seq![w]);
            lemma_hit(seq![w], update_keywords(), 2, 0);
            lemma_no_delete_single(w);
        } else if w == "edit"@ {
            lemma_phrase_between(a, seq![w], b);
            lemma_hit(a + seq![w] + b, update_keywords(), 3, a.len() as int);
            lemma_phrase_between(Seq::<Seq<char>>::empty(), seq![w], Seq::<Seq<char>>::empty());
            assert(Seq::<Seq<char>>::empty() + seq![w] + Seq::<Seq<char>>::empty() =~= seq![w]);
            lemma_hit(seq![w], update_keywords(), 3, 0);
            lemma_no_delete_single(w);
        } else if w == "move"@ {
            lemma_phrase_between(a, seq![w], b);
            lemma_hit(a + seq![w] + b, update_keywords(), 4, a.len() as int);
            lemma_phrase_between(Seq::<Seq<char>>::empty(), seq![w], Seq::<Seq<char>>::empty());
            assert(Seq::<Seq<char>>::empty() + seq![w] + Seq::<Seq<char>>::empty() =~= seq![w]);
            lemma_hit(seq![w], update_keywords(), 4, 0);
            lemma_no_delete_single(w);
        } else if w == "reassign"@ {
            lemma_phrase_between(a, seq![w], b);
            lemma_hit(a + seq![w] + b, update_keywords(), 5, a.len() as int);
            lemma_phrase_between(Seq::<Seq<char>>::empty(), seq![w], Seq::<Seq<char>>::empty());
            assert(Seq::<Seq<char>>::empty() + seq![w] + Seq::<Seq<char>>::empty() =~= seq![w]);
            lemma_hit(seq![w], update_keywords(), 5, 0);
            lemma_no_delete_single(w);
        } else if w == "standup"@ {
            lemma_phrase_between(a, seq![w], b);
            lemma_hit(a + seq![w] + b, update_keywords(), 6, a.len() as int);
            lemma_phrase_between(Seq::<Seq<char>>::empty(), seq![w], Seq::<Seq<char>>::empty());
            assert(Seq::<Seq<char>>::empty() + seq![w] + Seq::<Seq<char>>::empty() =~= seq![w]);
            lemma_hit(seq![w], update_keywords(), 6, 0);
            lemma_no_delete_single(w);
        } else if w == "complete"@ {
            lemma_phrase_between(a, seq![w], b);
            lemma_hit(a + seq![w] + b, update_keywords(), 7, a.len() as int);
            lemma_phrase_between(Seq::<Seq<char>>::empty(), seq![w], Seq::<Seq<char>>::empty());
            assert(Seq::<Seq<char>>::empty() + seq![w] + Seq::<Seq<char>>::empty() =~= seq![w]);
            lemma_hit(seq![w], update_keywords(), 7, 0);
            lemma_no_delete_single(w);
        } else if w == "transition"@ {
            lemma_phrase_between(a, seq![w], b);
            lemma_hit(a + seq![w] + b, update_keywords(), 8, a.len() as int);
            lemma_phrase_between(Seq::<Seq<char>>::empty(), seq![w], Seq::<Seq<char>>::empty());
            assert(Seq::<Seq<char>>::empty() + seq![w] + Seq::<Seq<char>>::empty() =~= seq![w]);
            lemma_hit(seq![w], update_keywords(), 8, 0);
            lemma_no_delete_single(w);
        } else if w == "fix"@ {
            lemma_phrase_between(a, seq![w], b);
            lemma_hit(a + seq![w] + b, update_keywords(), 9, a.len() as int);
            lemma_phrase_between(Seq::<Seq<char>>::empty(), seq![w], Seq::<Seq<char>>::empty());
            assert(Seq::<Seq<char>>::empty() + seq![w] + Seq::<Seq<char>>::empty() =~= seq![w]);
            lemma_hit(seq![w], update_keywords(), 9, 0);
            lemma_no_delete_single(w);
        } else if w == "resolve"@ {
            lemma_phrase_between(a, seq![w], b);
            lemma_hit(a + seq![w] + b, update_keywords(), 10, a.len() as int);
            lemma_phrase_between(Seq::<Seq<char>>::empty(), seq![w], Seq::<Seq<char>>::empty());
            assert(Seq::<Seq<char>>::empty() + seq![w] + Seq::<Seq<char>>::empty() =~= seq![w]);
            lemma_hit(seq![w], update_keywords(), 10, 0);
            lemma_no_delete_single(w);
        } else if w == "adjust"@ {
            lemma_phrase_between(a, seq![w], b);
            lemma_hit(a + seq![w] + b, update_keywords(), 11, a.len() as int);
            lemma_phrase_between(Seq::<Seq<char>>::empty(), seq![w], Seq::<Seq<char>>::empty());
            assert(Seq::<Seq<char>>::empty() + seq![w] + Seq::<Seq<char>>::empty() =~= seq![w]);
            lemma_hit(seq![w], update_keywords(), 11, 0);
            lemma_no_delete_single(w);
        }
    // a one-word insert keyword: neither a delete nor an update keyword
        if w == "create"@ {
            lemma_phrase_between(a, seq![w], b);
            lemma_hit(a + seq![w] + b, insert_keywords(), 0, a.len() as int);
            lemma_phrase_between(Seq::<Seq<char>>::empty(), seq![w], Seq::<Seq<char>>::empty());
            assert(Seq::<Seq<char>>::empty() + seq![w] + Seq::<Seq<char>>::empty() =~= seq![w]);
            lemma_hit(seq![w], insert_keywords(), 0, 0);
            lemma_no_delete_single(w);
            lemma_no_update_single(w);
        } else if w == "add"@ {
            lemma_phrase_between(a, seq![w], b);
            lemma_hit(a + seq![w] + b, insert_keywords(), 1, a.len() as int);
            lemma_phrase_between(Seq::<Seq<char>>::empty(), seq![w], Seq::<Seq<char>>::empty());
            assert(Seq::<Seq<char>>::empty() + seq![w] + Seq::<Seq<char>>::empty() =~= seq![w]);
            lemma_hit(seq![w], insert_keywords(), 1, 0);
            lemma_no_delete_single(w);
            lemma_no_update_single(w);
        } else if w == "new"@ {
            lemma_phrase_between(a, seq![w], b);
            lemma_hit(a + seq![w] + b, insert_keywords(), 2, a.len() as int);
            lemma_phrase_between(Seq::<Seq<char>>::empty(), seq![w], Seq::<Seq<char>>::empty());
            assert(Seq::<Seq<char>>::empty() + seq![w] + Seq::<Seq<char>>::empty() =~= seq![w]);
            lemma_hit(seq![w], insert_keywords(), 2, 0);
            lemma_no_delete_single(w);
            lemma_no_update_single(w);
        } else if w == "init"@ {
            lemma_phrase_between(a, seq![w], b);
            lemma_hit(a + seq![w] + b, insert_keywords(), 3, a.len() as int);
            lemma_phrase_between(Seq::<Seq<char>>::empty(), seq![w], Seq::<Seq<char>>::empty());
            assert(Seq::<Seq<char>>::empty() + seq![w] + Seq::<Seq<char>>::empty() =~= seq![w]);
            lemma_hit(seq![w], insert_keywords(), 3, 0);
            lemma_no_delete_single(w);
            lemma_no_update_single(w);
        } else if w == "start"@ {
            lemma_phrase_between(a, seq![w], b);
            lemma_hit(a + seq![w] + b, insert_keywords(), 4, a.len() as int);
            lemma_phrase_between(Seq::<Seq<char>>::empty(), seq![w], Seq::<Seq<char>>::empty());
            assert(Seq::<Seq<char>>::empty() + seq![w] + Seq::<Seq<char>>::empty() =~= seq![w]);
            lemma_hit(seq![w], insert_keywords(), 4, 0);
            lemma_no_delete_single(w);
            lemma_no_update_single(w);
        } else if w == "log"@ {
            lemma_phrase_between(a, seq![w], b);
            lemma_hit(a + seq![w] + b, insert_keywords(), 5, a.len() as int);
            lemma_phrase_between(Seq::<Seq<char>>::empty(), seq![w], Seq::<Seq<char>>::empty());
            assert(Seq::<Seq<char>>::empty() + seq![w] + Seq::<Seq<char>>::empty() =~= seq![w]);
            lemma_hit(seq![w], insert_keywords(), 5, 0);
            lemma_no_delete_single(w);
            lemma_no_update_single(w);
        } else if w == "insert"@ {
            lemma_phrase_between(a, seq![w], b);
            lemma_hit(a + seq![w] + b, insert_keywords(), 6, a.len() as int);
            lemma_phrase_between(Seq::<Seq<char>>::empty(), seq![w], Seq::<Seq<char>>::empty());
            assert(Seq::<Seq<char>>::empty() + seq![w] + Seq::<Seq<char>>::empty() =~= seq![w]);
            lemma_hit(seq![w], insert_keywords(), 6, 0);
            lemma_no_delete_single(w);
            lemma_no_update_single(w);
        } else if w == "push"@ {
            lemma_phrase_between(a, seq![w], b);
            lemma_hit(a + seq![w] + b, insert_keywords(), 7, a.len() as int);
            lemma_phrase_between(Seq::<Seq<char>>::empty(), seq![w], Seq::<Seq<char>>::empty());
            assert(Seq::<Seq<char>>::empty() + seq![w] + Seq::<Seq<char>>::empty() =~= seq![w]);
            lemma_hit(seq![w], insert_keywords(), 7, 0);
            lemma_no_delete_single(w);
            lemma_no_update_single(w);
        }
    // the two-word keywords
    let cp = seq!["close"@, "project"@];
    lemma_phrase_between(a, cp, b);
    lemma_hit(a + cp + b, delete_keywords(), 5, a.len() as int);
    let ct = seq!["close"@, "ticket"@];
    lemma_phrase_between(a, ct, b);
    lemma_hit(a + ct + b, update_keywords(), 12, a.len() as int);
    lemma_phrase_between(e, ct, e);
    assert(e + ct + e =~= ct);
    lemma_hit(ct, update_keywords(), 12, 0);
    lemma_no_delete_pair(ct);
    let ot = seq!["open"@, "ticket"@];
    lemma_phrase_between(a, ot, b);
    lemma_hit(a + ot + b, insert_keywords(), 8, a.len() as int);
    lemma_phrase_between(e, ot, e);
    assert(e + ot + e =~= ot);
    lemma_hit(ot, insert_keywords(), 8, 0);
    lemma_no_delete_pair(ot);
    lemma_no_update_pair(ot);
}

fn words_at(ws: &Vec<Vec<char>>, ph: &Vec<Vec<char>>, i: usize) -> (r: bool)
    requires
        i <= ws.len(),
    ensures
        r == phrase_at(views(ws@), views(ph@), i as int),
{
    let ghost w = views(ws@);
    let ghost p = views(ph@);
    if ph.len() > ws.len() - i {
        return false;
    }
    let mut j: usize = 0;
    while j < ph.len()
        invariant
            i + ph.len() <= ws.len(),
            j <= ph.len(),
            w == views(ws@),
            p == views(ph@),
            forall|t: int| 0 <= t < j ==> w[i + t] == #[trigger] p[t],
        decreases ph.len() - j,
    {
        if !crate::text::chars_eq(&ws[i + j], &ph[j]) {
            assert(w.subrange(i as int, i + ph.len())[j as int] != p[j as int]);
            return false;
        }
        j += 1;
    }
    assert(w.subrange(i as int, i + ph.len()) =~= p);
    true
}

fn contains_words(ws: &Vec<Vec<char>>, ph: &Vec<Vec<char>>) -> (r: bool)
    ensures
        r == contains_phrase(views(ws@), views(ph@)),
{
    let mut i: usize = 0;
    while i < ws.len()
        invariant
            i <= ws.len(),
            forall|t: int| 0 <= t < i ==> !phrase_at(views(ws@), views(ph@), t),
        decreases ws.len() - i,
    {
        if words_at(ws, ph, i) {
            return true;
        }
        i += 1;
    }
    if words_at(ws, ph, i) {
        return true;
    }
    assert forall|t: int| !phrase_at(views(ws@), views(ph@), t) by {
        if 0 <= t <= i {
        }
    }
    false
}

fn contains_keyword(ws: &Vec<Vec<char>>, keywords: &Vec<&str>) -> (r: bool)
    ensures
        r == has_keyword(views(ws@), str_views(keywords@)),
{
    let ghost kv = str_views(keywords@);
    let mut k: usize = 0;
    while k < keywords.len()
        invariant
            k <= keywords.len() == kv.len(),
            kv == str_views(keywords@),
            forall|t: int| 0 <= t < k ==> !contains_phrase(views(ws@), words(#[trigger] kv[t])),
        decreases keywords.len() - k,
    {
        let kw_chars = chars_of(keywords[k]);
        let ph = crate::text::words_chars(&kw_chars);
        if contains_words(ws, &ph) {
            assert(contains_phrase(views(ws@), words(kv[k as int])));
            return true;
        }
        k += 1;
    }
    false
}

/// Infer a CRUD classification from the prompt text.
/// Matches whole words only, so "address" does not trigger "add" and
/// "backlog" does not trigger "log". Falls back to `Get` when no write
/// keyword is found.
///
/// This is advisory routing, not the enforcement point: dev builds also
/// enforce read-only Jira access at the MCP layer (READ_ONLY_MODE).
pub fn infer_task_type(text: &str) -> (r: TaskType)
    ensures
        r == inferred_task_type(text@),
{
    let lower = to_lowercase(text);
    let chars = chars_of(lower.as_str());
    let pieces = split_chars(&chars, Separator::NonAlphanumeric);
    let ws = non_empty_pieces(&pieces);
    classify_words(&ws)
}

/// The task type that words signal (see `words_task_type`); the words of a
/// prompt are its lowercase alphanumeric runs.
pub fn classify_words(ws: &Vec<Vec<char>>) -> (r: TaskType)
    ensures
        r == words_task_type(views(ws@)),
{
    if contains_keyword(ws, &delete_keyword_list()) {
        return TaskType::Delete;
    }
    if contains_keyword(ws, &update_keyword_list()) {
        return TaskType::Update;
    }
    if contains_keyword(ws, &insert_keyword_list()) {
        return TaskType::Insert;
    }
    TaskType::Get
}

} // verus!

verus! {

// ── extract_goal ─────────────────────────────────────────────────────────────

/// The first line of a text as `str::lines().next()` gives it, or the text
/// itself when it has no line (it is then empty).
pub open spec fn first_line(s: Seq<char>) -> Seq<char> {
    if lines(s).len() == 0 {
        s
    } else {
        lines(s)[0]
    }
}

pub open spec fn is_terminator(c: char) -> bool {
    c == '.' || c == '!' || c == '?'
}

/// A sentence ends at position `i`: `.`, `!` or `?` followed by whitespace
/// or by the end of the line.
pub open spec fn ends_sentence(t: Seq<char>, i: int) -> bool {
    is_terminator(t[i]) && (i + 1 == t.len() || is_ws(t[i + 1]))
}

/// The first position at or after `i` where a sentence ends, or the length of `t`.
pub open spec fn sentence_end(t: Seq<char>, i: int) -> int
    decreases t.len() - i,
{
    if i >= t.len() {
        t.len() as int
    } else if ends_sentence(t, i) {
        i
    } else {
        sentence_end(t, i + 1)
    }
}

/// `s` cut to its first `max` characters, trailing whitespace removed and an
/// ellipsis added, when it is longer than `max`; `s` itself otherwise.
pub open spec fn truncated(s: Seq<char>, max: nat) -> Seq<char> {
    if s.len() > max {
        trim_end(s.take(max as int)).push('…')
    } else {
        s
    }
}

/// The goal of a normalised prompt: the first sentence of its first line
/// (the whole line when that sentence is blank), cut to `MAX_GOAL_CHARS`.
pub open spec fn goal_of(normalized: Seq<char>) -> Seq<char> {
    let line = trim(first_line(normalized));
    let sentence = trim(line.take(sentence_end(line, 0)));
    let goal = if sentence.len() == 0 {
        line
    } else {
        sentence
    };
    truncated(goal, MAX_GOAL_CHARS as nat)
}

fn copy_chars(v: &Vec<char>) -> (r: Vec<char>)
    ensures
        r@ == v@,
{
    let r = slice_chars(v, 0, v.len());
    assert(r@ =~= v@);
    r
}

fn truncate_chars(s: &Vec<char>, max: usize) -> (r: Vec<char>)
    ensures
        r@ == truncated(s@, max as nat),
{
    if s.len() > max {
        let head = slice_chars(s, 0, max);
        let mut r = trim_end_chars(&head);
        r.push('…');
        r
    } else {
        copy_chars(s)
    }
}

/// Return the first sentence of the first line of the normalised prompt as
/// the user's goal, capped at MAX_GOAL_CHARS. A sentence only ends at `.`,
/// `!`, or `?` followed by whitespace or end-of-line, so ticket IDs and
/// version numbers ("PROJ-1.2") do not split the goal.
pub fn extract_goal(normalized: &str) -> (r: String)
    ensures
        r@ == goal_of(normalized@),
        r@.len() <= MAX_GOAL_CHARS + 1,
        forall|i: int| 0 <= i < r@.len() ==> #[trigger] r@[i] != '\n',
{
    proof {
        lemma_goal_bounds(normalized@);
    }
    let chars = chars_of(normalized);
    let ls = lines_chars(&chars);
    let first = if ls.len() == 0 {
        copy_chars(&chars)
    } else {
        copy_chars(&ls[0])
    };
    let line = trim_chars(&first);
    let n = line.len();
    let mut end: usize = 0;
    while end < n && !((line[end] == '.' || line[end] == '!' || line[end] == '?') && (end + 1 == n
        || whitespace(line[end + 1])))
        invariant
            end <= n == line.len(),
            sentence_end(line@, 0) == sentence_end(line@, end as int),
        decreases n - end,
    {
        end += 1;
    }
    let sentence = trim_chars(&slice_chars(&line, 0, end));
    assert(line@.subrange(0, end as int) =~= line@.take(sentence_end(line@, 0)));
    let goal = if sentence.len() == 0 {
        line
    } else {
        sentence
    };
    let r = truncate_chars(&goal, MAX_GOAL_CHARS);
    string_of(&r)
}

} // verus!

verus! {

// ── the normal form ──────────────────────────────────────────────────────────

/// A character that may stand in a normalised line besides the space: one
/// that cleaning keeps and that is not whitespace.
pub open spec fn is_visible(c: char) -> bool {
    kept_char(c) && !is_ws(c)
}

/// A line in normal form: visible characters and single spaces, no space
/// first or last.
pub open spec fn is_clean_line(l: Seq<char>) -> bool {
    &&& forall|i: int| 0 <= i < l.len() ==> #[trigger] l[i] == ' ' || is_visible(l[i])
    &&& l.len() > 0 ==> l[0] != ' ' && l.last() != ' '
    &&& forall|i: int| 0 <= i < l.len() - 1 ==> !(#[trigger] l[i] == ' ' && l[i + 1] == ' ')
}

/// No two blank lines follow each other.
pub open spec fn no_blank_run(ls: Seq<Seq<char>>) -> bool {
    forall|k: int| 0 <= k < ls.len() - 1 ==> #[trigger] ls[k].len() > 0 || ls[k + 1].len() > 0
}

/// Text in normal form: each of its lines (split at newlines) is clean, the
/// first and the last line are not blank, and no two blank lines follow
/// each other.
pub open spec fn is_normalized(t: Seq<char>) -> bool {
    let ls = split(t, Separator::Newline);
    &&& forall|k: int| 0 <= k < ls.len() ==> is_clean_line(#[trigger] ls[k])
    &&& t.len() > 0 ==> ls[0].len() > 0 && ls.last().len() > 0
    &&& no_blank_run(ls)
}

pub open spec fn all_kept(s: Seq<char>) -> bool {
    forall|i: int| 0 <= i < s.len() ==> kept_char(#[trigger] s[i])
}

proof fn lemma_clean_kept(s: Seq<char>)
    ensures
        all_kept(clean(s)),
    decreases s.len(),
{
    if s.len() > 0 {
        lemma_clean_kept(s.drop_last());
    }
}

proof fn lemma_clean_unchanged(s: Seq<char>)
    requires
        all_kept(s),
    ensures
        clean(s) == s,
    decreases s.len(),
{
    if s.len() > 0 {
        assert(all_kept(s.drop_last()));
        lemma_clean_unchanged(s.drop_last());
        assert(s.drop_last().push(s.last()) =~= s);
    }
}

/// The pieces of kept text are kept and hold no separator.
proof fn lemma_split_pieces(l: Seq<char>, sep: Separator)
    requires
        all_kept(l),
    ensures
        forall|k: int, j: int|
            0 <= k < split(l, sep).len() && 0 <= j < split(l, sep)[k].len() ==> kept_char(
                #[trigger] split(l, sep)[k][j],
            ) && !separates(sep, split(l, sep)[k][j]),
    decreases l.len(),
{
    if l.len() > 0 {
        assert(all_kept(l.drop_last()));
        lemma_split_pieces(l.drop_last(), sep);
        lemma_split_nonempty(l.drop_last(), sep);
        let r = split(l.drop_last(), sep);
        if !separates(sep, l.last()) {
            let p = split(l, sep);
            assert forall|k: int, j: int| 0 <= k < p.len() && 0 <= j < p[k].len() implies kept_char(
                #[trigger] p[k][j],
            ) && !separates(sep, p[k][j]) by {
                if k == p.len() - 1 && j == r.last().len() {
                    assert(p[k][j] == l.last());
                } else {
                    assert(p[k][j] == r[k][j]);
                }
            }
        }
    }
}

proof fn lemma_lines_kept(t: Seq<char>)
    requires
        all_kept(t),
    ensures
        forall|k: int| 0 <= k < lines(t).len() ==> all_kept(#[trigger] lines(t)[k]),
{
    lemma_split_pieces(t, Separator::Newline);
    lemma_split_nonempty(t, Separator::Newline);
    let p = split(t, Separator::Newline);
    assert forall|k: int| 0 <= k < lines(t).len() implies all_kept(#[trigger] lines(t)[k]) by {
        assert forall|j: int| 0 <= j < lines(t)[k].len() implies kept_char(
            #[trigger] lines(t)[k][j],
        ) by {
            if k < p.len() - 1 {
                assert(lines(t)[k] == strip_cr(p[k]));
                assert(lines(t)[k][j] == p[k][j]);
            } else {
                assert(lines(t)[k] == p.last());
                assert(lines(t)[k][j] == p[p.len() - 1][j]);
            }
        }
    }
}

proof fn lemma_non_empty_visible(ps: Seq<Seq<char>>)
    requires
        forall|k: int, j: int| 0 <= k < ps.len() && 0 <= j < ps[k].len() ==> is_visible(#[trigger] ps[k][j]),
    ensures
        forall|k: int|
            0 <= k < non_empty(ps).len() ==> (#[trigger] non_empty(ps)[k]).len() > 0 && forall|j: int|
                0 <= j < non_empty(ps)[k].len() ==> is_visible(#[trigger] non_empty(ps)[k][j]),
    decreases ps.len(),
{
    if ps.len() > 0 {
        let init = ps.drop_last();
        assert forall|k: int, j: int| 0 <= k < init.len() && 0 <= j < init[k].len() implies is_visible(
            #[trigger] init[k][j],
        ) by {
            assert(init[k][j] == ps[k][j]);
        }
        lemma_non_empty_visible(init);
        let r = non_empty(init);
        if ps.last().len() > 0 {
            assert forall|k: int| 0 <= k < non_empty(ps).len() implies (
            #[trigger] non_empty(ps)[k]).len() > 0 && forall|j: int|
                0 <= j < non_empty(ps)[k].len() ==> is_visible(#[trigger] non_empty(ps)[k][j]) by {
                if k == r.len() {
                    assert(non_empty(ps)[k] == ps[ps.len() - 1]);
                    assert forall|j: int| 0 <= j < non_empty(ps)[k].len() implies is_visible(
                        #[trigger] non_empty(ps)[k][j],
                    ) by {
                        assert(non_empty(ps)[k][j] == ps[ps.len() - 1][j]);
                    }
                } else {
                    assert(non_empty(ps)[k] == r[k]);
                }
            }
        }
    }
}

proof fn lemma_join_nonempty(ps: Seq<Seq<char>>, sep: Seq<char>)
    requires
        ps.len() > 0,
        ps[0].len() > 0,
    ensures
        join(ps, sep).len() > 0,
        join(ps, sep)[0] == ps[0][0],
    decreases ps.len(),
{
    if ps.len() > 1 {
        lemma_join_nonempty(ps.drop_last(), sep);
    }
}

/// Non-empty pieces of visible characters joined with single spaces make a clean line.
proof fn lemma_join_spaces_clean(ps: Seq<Seq<char>>)
    requires
        forall|k: int|
            0 <= k < ps.len() ==> (#[trigger] ps[k]).len() > 0 && forall|j: int|
                0 <= j < ps[k].len() ==> is_visible(#[trigger] ps[k][j]),
    ensures
        is_clean_line(join(ps, seq![' '])),
    decreases ps.len(),
{
    let t = join(ps, seq![' ']);
    if ps.len() == 1 {
        assert(t == ps[0]);
        assert(ps[0].len() > 0);
        assert forall|i: int| 0 <= i < t.len() implies #[trigger] t[i] == ' ' || is_visible(
            t[i],
        ) by {
            assert(is_visible(ps[0][i]));
        }
        assert(is_visible(ps[0][0]));
        assert(is_visible(ps[0][ps[0].len() - 1]));
        assert forall|i: int| 0 <= i < t.len() - 1 implies !(#[trigger] t[i] == ' ' && t[i + 1]
            == ' ') by {
            assert(is_visible(ps[0][i]));
        }
    } else if ps.len() > 1 {
        let init = ps.drop_last();
        let last = ps.last();
        assert forall|k: int|
            0 <= k < init.len() implies (#[trigger] init[k]).len() > 0 && forall|j: int|
                0 <= j < init[k].len() ==> is_visible(#[trigger] init[k][j]) by {
            assert(init[k] == ps[k]);
        }
        lemma_join_spaces_clean(init);
        let a = join(init, seq![' ']);
        assert(init[0].len() > 0);
        lemma_join_nonempty(init, seq![' ']);
        assert(t == a + seq![' '] + last);
        assert(last == ps[ps.len() - 1]);
        assert(last.len() > 0);
        let n = a.len();
        assert forall|i: int| 0 <= i < t.len() implies #[trigger] t[i] == ' ' || is_visible(
            t[i],
        ) by {
            if i < n {
                assert(t[i] == a[i]);
            } else if i > n {
                assert(t[i] == last[i - n - 1]);
                assert(is_visible(ps[ps.len() - 1][i - n - 1]));
            }
        }
        assert(t[0] == a[0]);
        assert(t[t.len() - 1] == last[last.len() - 1]);
        assert(is_visible(ps[ps.len() - 1][last.len() - 1]));
        assert forall|i: int| 0 <= i < t.len() - 1 implies !(#[trigger] t[i] == ' ' && t[i + 1]
            == ' ') by {
            if i < n - 1 {
                assert(t[i] == a[i] && t[i + 1] == a[i + 1]);
            } else if i == n - 1 {
                assert(t[i] == a[n - 1]);
            } else if i == n {
                assert(t[i + 1] == last[0]);
                assert(is_visible(ps[ps.len() - 1][0]));
            } else {
                assert(t[i] == last[i - n - 1]);
                assert(is_visible(ps[ps.len() - 1][i - n - 1]));
            }
        }
    }
}

proof fn lemma_collapse_clean(l: Seq<char>)
    requires
        all_kept(l),
    ensures
        is_clean_line(collapse_line(l)),
{
    let p = split(l, Separator::Whitespace);
    lemma_split_pieces(l, Separator::Whitespace);
    assert forall|k: int, j: int| 0 <= k < p.len() && 0 <= j < p[k].len() implies is_visible(
        #[trigger] p[k][j],
    ) by {
        assert(kept_char(p[k][j]) && !separates(Separator::Whitespace, p[k][j]));
    }
    lemma_non_empty_visible(p);
    lemma_join_spaces_clean(non_empty(p));
}

} // verus!

verus! {

pub open spec fn all_clean(ls: Seq<Seq<char>>) -> bool {
    forall|k: int| 0 <= k < ls.len() ==> is_clean_line(#[trigger] ls[k])
}

proof fn lemma_squeeze(ls: Seq<Seq<char>>)
    requires
        all_clean(ls),
    ensures
        all_clean(squeeze(ls)),
        squeeze(ls).len() > 0 ==> squeeze(ls)[0].len() > 0,
        no_blank_run(squeeze(ls)),
    decreases ls.len(),
{
    if ls.len() > 0 {
        let init = ls.drop_last();
        assert(all_clean(init)) by {
            assert forall|k: int| 0 <= k < init.len() implies is_clean_line(#[trigger] init[k]) by {
                assert(init[k] == ls[k]);
            }
        }
        lemma_squeeze(init);
        let r = squeeze(init);
        let q = squeeze(ls);
        if ls.last().len() > 0 || (r.len() > 0 && r.last().len() > 0) {
            assert(q == r.push(ls.last()));
            assert(is_clean_line(ls[ls.len() - 1]));
            assert forall|k: int| 0 <= k < q.len() implies is_clean_line(#[trigger] q[k]) by {
                if k < r.len() {
                    assert(q[k] == r[k]);
                }
            }
            assert forall|k: int| 0 <= k < q.len() - 1 implies #[trigger] q[k].len() > 0 || q[k
                + 1].len() > 0 by {
                if k < r.len() - 1 {
                    assert(q[k] == r[k] && q[k + 1] == r[k + 1]);
                } else {
                    assert(q[k] == r[r.len() - 1]);
                }
            }
        }
    }
}

proof fn lemma_drop_trailing(ls: Seq<Seq<char>>)
    ensures
        drop_trailing_blank(ls).len() <= ls.len(),
        drop_trailing_blank(ls) == ls.take(drop_trailing_blank(ls).len() as int),
        drop_trailing_blank(ls).len() > 0 ==> drop_trailing_blank(ls).last().len() > 0,
    decreases ls.len(),
{
    if ls.len() > 0 && ls.last().len() == 0 {
        lemma_drop_trailing(ls.drop_last());
        let d = drop_trailing_blank(ls.drop_last());
        assert(ls.drop_last().take(d.len() as int) =~= ls.take(d.len() as int));
    } else {
        assert(ls.take(ls.len() as int) =~= ls);
    }
}

/// The normal form of any text is normalised: clean lines, no blank line
/// first or last, no two blank lines in a row.
pub proof fn lemma_normal_form_is_normalized(s: Seq<char>)
    ensures
        is_normalized(normal_form(s)),
{
    let c = clean(s);
    lemma_clean_kept(c);
    lemma_clean_kept(s);
    lemma_lines_kept(c);
    let ls = lines(c);
    let collapsed = ls.map_values(|l: Seq<char>| collapse_line(l));
    assert(all_clean(collapsed)) by {
        assert forall|k: int| 0 <= k < collapsed.len() implies is_clean_line(#[trigger] collapsed[k]) by {
            assert(all_kept(ls[k]));
            lemma_collapse_clean(ls[k]);
        }
    }
    lemma_squeeze(collapsed);
    let q = squeeze(collapsed);
    lemma_drop_trailing(q);
    let d = drop_trailing_blank(q);
    assert(all_clean(d)) by {
        assert forall|k: int| 0 <= k < d.len() implies is_clean_line(#[trigger] d[k]) by {
            assert(d[k] == q[k]);
        }
    }
    assert(no_blank_run(d)) by {
        assert forall|k: int| 0 <= k < d.len() - 1 implies #[trigger] d[k].len() > 0 || d[k
            + 1].len() > 0 by {
            assert(d[k] == q[k] && d[k + 1] == q[k + 1]);
        }
    }
    let t = join(d, seq!['\n']);
    assert(t == normal_form(s));
    if d.len() == 0 {
        assert(t =~= Seq::<char>::empty());
        assert(split(t, Separator::Newline) =~= seq![Seq::<char>::empty()]);
    } else {
        assert(d[0] == q[0]);
        assert forall|k: int, i: int|
            0 <= k < d.len() && 0 <= i < d[k].len() implies !separates(
            Separator::Newline,
            #[trigger] d[k][i],
        ) by {
            assert(is_clean_line(d[k]));
            assert(d[k][i] == ' ' || is_visible(d[k][i]));
        }
        lemma_split_join(d, '\n', Separator::Newline);
    }
}

} // verus!

verus! {

proof fn lemma_join_kept(ps: Seq<Seq<char>>, c: char)
    requires
        kept_char(c),
        forall|k: int| 0 <= k < ps.len() ==> all_kept(#[trigger] ps[k]),
    ensures
        all_kept(join(ps, seq![c])),
    decreases ps.len(),
{
    if ps.len() == 1 {
        assert(all_kept(ps[0]));
    } else if ps.len() > 1 {
        let init = ps.drop_last();
        assert forall|k: int| 0 <= k < init.len() implies all_kept(#[trigger] init[k]) by {
            assert(init[k] == ps[k]);
        }
        lemma_join_kept(init, c);
        let a = join(init, seq![c]);
        let last = ps[ps.len() - 1];
        assert(all_kept(last));
        let t = join(ps, seq![c]);
        assert(t == a + seq![c] + last);
        assert forall|i: int| 0 <= i < t.len() implies kept_char(#[trigger] t[i]) by {
            if i < a.len() {
                assert(t[i] == a[i]);
            } else if i > a.len() {
                assert(t[i] == last[i - a.len() - 1]);
            }
        }
    }
}

proof fn lemma_non_empty_unchanged(ps: Seq<Seq<char>>)
    requires
        forall|k: int| 0 <= k < ps.len() ==> (#[trigger] ps[k]).len() > 0,
    ensures
        non_empty(ps) == ps,
    decreases ps.len(),
{
    if ps.len() > 0 {
        let init = ps.drop_last();
        assert forall|k: int| 0 <= k < init.len() implies (#[trigger] init[k]).len() > 0 by {
            assert(init[k] == ps[k]);
        }
        lemma_non_empty_unchanged(init);
        assert(ps[ps.len() - 1].len() > 0);
        assert(init.push(ps.last()) =~= ps);
    }
}

/// Text that neither starts with a separator nor holds two in a row splits
/// into non-empty pieces, but for the last, which is empty exactly when the
/// text is empty or ends with a separator.
proof fn lemma_split_pieces_nonempty(l: Seq<char>, sep: Separator)
    requires
        l.len() > 0 ==> !separates(sep, l[0]),
        forall|i: int| 0 <= i < l.len() - 1 ==> !(separates(sep, #[trigger] l[i]) && separates(sep, l[i + 1])),
    ensures
        forall|k: int| 0 <= k < split(l, sep).len() - 1 ==> (#[trigger] split(l, sep)[k]).len() > 0,
        split(l, sep).last().len() == 0 <==> (l.len() == 0 || separates(sep, l.last())),
    decreases l.len(),
{
    lemma_split_nonempty(l, sep);
    if l.len() > 0 {
        let init = l.drop_last();
        assert forall|i: int| 0 <= i < init.len() - 1 implies !(separates(sep, #[trigger] init[i])
            && separates(sep, init[i + 1])) by {
            assert(init[i] == l[i] && init[i + 1] == l[i + 1]);
        }
        if init.len() > 0 {
            assert(init[0] == l[0]);
        }
        lemma_split_pieces_nonempty(init, sep);
        lemma_split_nonempty(init, sep);
        let r = split(init, sep);
        if separates(sep, l.last()) {
            assert(init.len() > 0);
            assert(init.last() == l[l.len() - 2]);
            assert(!separates(sep, init.last()));
            assert forall|k: int| 0 <= k < split(l, sep).len() - 1 implies (#[trigger] split(
                l,
                sep,
            )[k]).len() > 0 by {
                assert(split(l, sep)[k] == r[k]);
            }
        } else {
            assert forall|k: int| 0 <= k < split(l, sep).len() - 1 implies (#[trigger] split(
                l,
                sep,
            )[k]).len() > 0 by {
                assert(split(l, sep)[k] == r[k]);
            }
        }
    }
}

proof fn lemma_collapse_unchanged(l: Seq<char>)
    requires
        is_clean_line(l),
    ensures
        collapse_line(l) == l,
{
    let sep = Separator::Whitespace;
    let p = split(l, sep);
    if l.len() == 0 {
        assert(l =~= Seq::<char>::empty());
        assert(p =~= seq![Seq::<char>::empty()]);
        assert(p.drop_last() =~= Seq::<Seq<char>>::empty());
        assert(non_empty(p.drop_last()) =~= Seq::<Seq<char>>::empty());
        assert(non_empty(p) =~= Seq::<Seq<char>>::empty());
    } else {
        assert(!separates(sep, l[0])) by {
            assert(l[0] == ' ' || is_visible(l[0]));
        }
        assert forall|i: int| 0 <= i < l.len() - 1 implies !(separates(sep, #[trigger] l[i])
            && separates(sep, l[i + 1])) by {
            assert(l[i] == ' ' || is_visible(l[i]));
            assert(l[i + 1] == ' ' || is_visible(l[i + 1]));
        }
        lemma_split_pieces_nonempty(l, sep);
        assert(!separates(sep, l.last())) by {
            assert(l[l.len() - 1] == ' ' || is_visible(l[l.len() - 1]));
        }
        lemma_split_nonempty(l, sep);
        assert forall|k: int| 0 <= k < p.len() implies (#[trigger] p[k]).len() > 0 by {
            if k == p.len() - 1 {
                assert(p[k] == p.last());
            }
        }
        lemma_non_empty_unchanged(p);
        assert forall|i: int| 0 <= i < l.len() && separates(sep, #[trigger] l[i]) implies l[i]
            == ' ' by {
            assert(l[i] == ' ' || is_visible(l[i]));
        }
        lemma_join_split(l, ' ', sep);
    }
}

proof fn lemma_squeeze_unchanged(ls: Seq<Seq<char>>)
    requires
        ls.len() > 0 ==> ls[0].len() > 0,
        no_blank_run(ls),
    ensures
        squeeze(ls) == ls,
    decreases ls.len(),
{
    if ls.len() > 0 {
        let init = ls.drop_last();
        if init.len() > 0 {
            assert(init[0] == ls[0]);
        }
        assert forall|k: int| 0 <= k < init.len() - 1 implies #[trigger] init[k].len() > 0
            || init[k + 1].len() > 0 by {
            assert(init[k] == ls[k] && init[k + 1] == ls[k + 1]);
        }
        lemma_squeeze_unchanged(init);
        if ls.last().len() == 0 {
            assert(ls.len() >= 2);
            assert(ls[ls.len() - 2].len() > 0 || ls[ls.len() - 1].len() > 0);
            assert(init.last() == ls[ls.len() - 2]);
        }
        assert(init.push(ls.last()) =~= ls);
    }
}

/// Text in normal form is its own normal form.
pub proof fn lemma_normalized_unchanged(t: Seq<char>)
    requires
        is_normalized(t),
    ensures
        normal_form(t) == t,
{
    let nl = Separator::Newline;
    let p = split(t, nl);
    lemma_split_nonempty(t, nl);
    if t.len() == 0 {
        assert(t =~= Seq::<char>::empty());
        assert(clean(t) =~= t);
        assert(p =~= seq![Seq::<char>::empty()]);
        assert(lines(clean(t)) =~= Seq::<Seq<char>>::empty());
        assert(normal_form(t) =~= t);
    } else {
        // every character is kept, so cleaning changes nothing
        lemma_join_split(t, '\n', nl);
        assert forall|k: int| 0 <= k < p.len() implies all_kept(#[trigger] p[k]) by {
            assert(is_clean_line(p[k]));
            assert forall|i: int| 0 <= i < p[k].len() implies kept_char(#[trigger] p[k][i]) by {
                assert(p[k][i] == ' ' || is_visible(p[k][i]));
            }
        }
        lemma_join_kept(p, '\n');
        lemma_clean_unchanged(t);
        // the lines are the pieces: no carriage returns, and the last is not blank
        assert(p.drop_last().map_values(|l: Seq<char>| strip_cr(l)) =~= p.drop_last()) by {
            assert forall|k: int| 0 <= k < p.len() - 1 implies strip_cr(#[trigger] p[k]) == p[k] by {
                assert(is_clean_line(p[k]));
                if p[k].len() > 0 {
                    let c = p[k][p[k].len() - 1];
                    assert(c == ' ' || is_visible(c));
                }
            }
        }
        assert(lines(t) =~= p);
        // each line is already collapsed
        let collapsed = p.map_values(|l: Seq<char>| collapse_line(l));
        assert(collapsed =~= p) by {
            assert forall|k: int| 0 <= k < p.len() implies collapse_line(#[trigger] p[k]) == p[k] by {
                lemma_collapse_unchanged(p[k]);
            }
        }
        lemma_squeeze_unchanged(p);
        assert(drop_trailing_blank(p) == p);
    }
}

// ── what normalisation keeps ─────────────────────────────────────────────────

/// The visible characters of `s`, in order.
pub open spec fn visible_text(s: Seq<char>) -> Seq<char>
    decreases s.len(),
{
    if s.len() == 0 {
        s
    } else if is_visible(s.last()) {
        visible_text(s.drop_last()).push(s.last())
    } else {
        visible_text(s.drop_last())
    }
}

/// The visible characters of the lines `ls`, in order.
pub open spec fn visible_lines(ls: Seq<Seq<char>>) -> Seq<char>
    decreases ls.len(),
{
    if ls.len() == 0 {
        Seq::<char>::empty()
    } else {
        visible_lines(ls.drop_last()) + visible_text(ls.last())
    }
}

proof fn lemma_visible_add(a: Seq<char>, b: Seq<char>)
    ensures
        visible_text(a + b) == visible_text(a) + visible_text(b),
    decreases b.len(),
{
    if b.len() == 0 {
        assert(a + b =~= a);
        assert(visible_text(a) + visible_text(b) =~= visible_text(a));
    } else {
        lemma_visible_add(a, b.drop_last());
        assert((a + b).drop_last() =~= a + b.drop_last());
        assert((a + b).last() == b.last());
        if is_visible(b.last()) {
            assert(visible_text(a) + visible_text(b) =~= (visible_text(a) + visible_text(
                b.drop_last(),
            )).push(b.last()));
        }
    }
}

/// Joining with an invisible separator keeps exactly the visible characters
/// of the pieces.
proof fn lemma_visible_join(ls: Seq<Seq<char>>, sep: Seq<char>)
    requires
        visible_text(sep) == Seq::<char>::empty(),
    ensures
        visible_text(join(ls, sep)) == visible_lines(ls),
    decreases ls.len(),
{
    if ls.len() == 1 {
        assert(ls.drop_last() =~= Seq::<Seq<char>>::empty());
        assert(visible_lines(ls.drop_last()) == Seq::<char>::empty());
        assert(ls.last() == ls[0]);
        assert(visible_lines(ls) =~= visible_text(ls[0]));
    } else if ls.len() > 1 {
        lemma_visible_join(ls.drop_last(), sep);
        lemma_visible_add(join(ls.drop_last(), sep), sep);
        lemma_visible_add(join(ls.drop_last(), sep) + sep, ls.last());
        assert(visible_lines(ls.drop_last()) + Seq::<char>::empty() =~= visible_lines(
            ls.drop_last(),
        ));
    }
}

proof fn lemma_visible_clean(s: Seq<char>)
    ensures
        visible_text(clean(s)) == visible_text(s),
    decreases s.len(),
{
    if s.len() > 0 {
        lemma_visible_clean(s.drop_last());
        if kept_char(s.last()) {
            let c = clean(s.drop_last());
            assert(c.push(s.last()).drop_last() =~= c);
        }
    }
}

/// Splitting at invisible separators keeps exactly the visible characters.
proof fn lemma_visible_split(s: Seq<char>, sep: Separator)
    requires
        forall|c: char| separates(sep, c) ==> !is_visible(c),
    ensures
        visible_lines(split(s, sep)) == visible_text(s),
    decreases s.len(),
{
    if s.len() == 0 {
        let one = seq![Seq::<char>::empty()];
        assert(one.drop_last() =~= Seq::<Seq<char>>::empty());
        assert(visible_lines(one.drop_last()) == Seq::<char>::empty());
        assert(visible_text(one.last()) == Seq::<char>::empty());
        assert(visible_lines(one) =~= Seq::<char>::empty());
        assert(split(s, sep) == one);
    } else {
        let init = s.drop_last();
        let c = s.last();
        lemma_visible_split(init, sep);
        lemma_split_nonempty(init, sep);
        let r = split(init, sep);
        if separates(sep, c) {
            assert(r.push(Seq::<char>::empty()).drop_last() =~= r);
            assert(visible_lines(r) + Seq::<char>::empty() =~= visible_lines(r));
        } else {
            let u = r.update(r.len() - 1, r.last().push(c));
            assert(u.drop_last() =~= r.drop_last());
            assert(u.last() == r.last().push(c));
            assert(r.last().push(c).drop_last() =~= r.last());
            if is_visible(c) {
                assert(visible_lines(r.drop_last()) + visible_text(r.last()).push(c) =~= (
                visible_lines(r.drop_last()) + visible_text(r.last())).push(c));
            }
        }
    }
}

proof fn lemma_visible_non_empty(ps: Seq<Seq<char>>)
    ensures
        visible_lines(non_empty(ps)) == visible_lines(ps),
    decreases ps.len(),
{
    if ps.len() > 0 {
        lemma_visible_non_empty(ps.drop_last());
        let r = non_empty(ps.drop_last());
        if ps.last().len() > 0 {
            assert(r.push(ps.last()).drop_last() =~= r);
        } else {
            assert(ps.last() =~= Seq::<char>::empty());
            assert(visible_lines(ps.drop_last()) + Seq::<char>::empty() =~= visible_lines(
                ps.drop_last(),
            ));
        }
    }
}

/// Collapsing a line's whitespace keeps its visible characters.
proof fn lemma_visible_collapse(l: Seq<char>)
    ensures
        visible_text(collapse_line(l)) == visible_text(l),
{
    let space = seq![' '];
    assert(space.drop_last() =~= Seq::<char>::empty());
    assert(space.last() == ' ' && !is_visible(' '));
    assert(visible_text(space.drop_last()) == Seq::<char>::empty());
    assert(visible_text(space) =~= Seq::<char>::empty());
    lemma_visible_join(words(l), space);
    lemma_visible_non_empty(split(l, Separator::Whitespace));
    lemma_visible_split(l, Separator::Whitespace);
}

proof fn lemma_visible_collapse_all(ls: Seq<Seq<char>>)
    ensures
        visible_lines(ls.map_values(|l: Seq<char>| collapse_line(l))) == visible_lines(ls),
    decreases ls.len(),
{
    if ls.len() > 0 {
        lemma_visible_collapse_all(ls.drop_last());
        lemma_visible_collapse(ls.last());
        assert(ls.map_values(|l: Seq<char>| collapse_line(l)).drop_last() =~= ls.drop_last().map_values(
            |l: Seq<char>| collapse_line(l),
        ));
    }
}

proof fn lemma_visible_strip_all(ls: Seq<Seq<char>>)
    ensures
        visible_lines(ls.map_values(|l: Seq<char>| strip_cr(l))) == visible_lines(ls),
    decreases ls.len(),
{
    if ls.len() > 0 {
        lemma_visible_strip_all(ls.drop_last());
        assert(ls.map_values(|l: Seq<char>| strip_cr(l)).drop_last() =~= ls.drop_last().map_values(
            |l: Seq<char>| strip_cr(l),
        ));
        let l = ls.last();
        if l.len() > 0 && l.last() == '\r' {
            assert(visible_text(strip_cr(l)) == visible_text(l));
        }
    }
}

/// Breaking text into lines keeps its visible characters.
proof fn lemma_visible_lines(t: Seq<char>)
    ensures
        visible_lines(lines(t)) == visible_text(t),
{
    let nl = Separator::Newline;
    let p = split(t, nl);
    lemma_split_nonempty(t, nl);
    lemma_visible_split(t, nl);
    lemma_visible_strip_all(p.drop_last());
    let init = p.drop_last().map_values(|l: Seq<char>| strip_cr(l));
    if p.last().len() == 0 {
        assert(p.last() =~= Seq::<char>::empty());
        assert(visible_lines(p) =~= visible_lines(p.drop_last()));
    } else {
        assert(init.push(p.last()).drop_last() =~= init);
    }
}

proof fn lemma_visible_squeeze(ls: Seq<Seq<char>>)
    ensures
        visible_lines(squeeze(ls)) == visible_lines(ls),
    decreases ls.len(),
{
    if ls.len() > 0 {
        lemma_visible_squeeze(ls.drop_last());
        let r = squeeze(ls.drop_last());
        if ls.last().len() > 0 || (r.len() > 0 && r.last().len() > 0) {
            assert(r.push(ls.last()).drop_last() =~= r);
        } else {
            assert(ls.last() =~= Seq::<char>::empty());
            assert(visible_lines(ls.drop_last()) + Seq::<char>::empty() =~= visible_lines(
                ls.drop_last(),
            ));
        }
    }
}

proof fn lemma_visible_drop_trailing(ls: Seq<Seq<char>>)
    ensures
        visible_lines(drop_trailing_blank(ls)) == visible_lines(ls),
    decreases ls.len(),
{
    if ls.len() > 0 && ls.last().len() == 0 {
        lemma_visible_drop_trailing(ls.drop_last());
        assert(ls.last() =~= Seq::<char>::empty());
        assert(visible_lines(ls.drop_last()) + Seq::<char>::empty() =~= visible_lines(
            ls.drop_last(),
        ));
    }
}

/// Normalisation only touches whitespace and invisible characters: the
/// visible characters of a prompt, in order, are those of its normal form.
pub proof fn normalize_keeps_visible_text(s: Seq<char>)
    ensures
        visible_text(normal_form(s)) == visible_text(s),
{
    let m = lines(clean(s)).map_values(|l: Seq<char>| collapse_line(l));
    let newline = seq!['\n'];
    assert(newline.drop_last() =~= Seq::<char>::empty());
    assert(newline.last() == '\n' && !is_visible('\n'));
    assert(visible_text(newline.drop_last()) == Seq::<char>::empty());
    assert(visible_text(newline) =~= Seq::<char>::empty());
    lemma_visible_join(drop_trailing_blank(squeeze(m)), newline);
    lemma_visible_drop_trailing(squeeze(m));
    lemma_visible_squeeze(m);
    lemma_visible_collapse_all(lines(clean(s)));
    lemma_visible_lines(clean(s));
    lemma_visible_clean(s);
}

/// Normalising twice gives what normalising once gives.
pub proof fn normalize_idempotent(s: Seq<char>)
    ensures
        normal_form(normal_form(s)) == normal_form(s),
{
    lemma_normal_form_is_normalized(s);
    lemma_normalized_unchanged(normal_form(s));
}

} // verus!

verus! {

/// A goal is at most one character longer than the cap (the ellipsis) and
/// holds no newline.
pub proof fn lemma_goal_bounds(s: Seq<char>)
    ensures
        goal_of(s).len() <= MAX_GOAL_CHARS + 1,
        forall|i: int| 0 <= i < goal_of(s).len() ==> #[trigger] goal_of(s)[i] != '\n',
{
    let ws = Separator::Whitespace;
    let first = first_line(s);
    lemma_no_lines_empty(s);
    lemma_lines_no_newline(s);
    assert forall|i: int| 0 <= i < first.len() implies #[trigger] first[i] != '\n' by {
        if lines(s).len() > 0 {
            assert(first[i] == lines(s)[0][i]);
        }
    }
    let line = trim(first);
    lemma_trim_within(first, ws);
    assert forall|i: int| 0 <= i < line.len() implies #[trigger] line[i] != '\n' by {
        let j = choose|j: int| 0 <= j < first.len() && line[i] == first[j];
    }
    let end = sentence_end(line, 0);
    lemma_sentence_end_bounds(line, 0);
    let head = line.take(end);
    let sentence = trim(head);
    lemma_trim_within(head, ws);
    assert forall|i: int| 0 <= i < sentence.len() implies #[trigger] sentence[i] != '\n' by {
        let j = choose|j: int| 0 <= j < head.len() && sentence[i] == head[j];
        assert(head[j] == line[j]);
    }
    let goal = if sentence.len() == 0 {
        line
    } else {
        sentence
    };
    let max = MAX_GOAL_CHARS as nat;
    if goal.len() > max {
        let cut = goal.take(max as int);
        lemma_trim_end_prefix(cut, ws);
        let kept = trim_end(cut);
        let r = kept.push('…');
        assert(r == goal_of(s));
        assert forall|i: int| 0 <= i < r.len() implies #[trigger] r[i] != '\n' by {
            if i < kept.len() {
                assert(r[i] == kept[i]);
                assert(kept[i] == cut[i]);
                assert(cut[i] == goal[i]);
            }
        }
    }
}

proof fn lemma_sentence_end_bounds(t: Seq<char>, i: int)
    requires
        0 <= i <= t.len(),
    ensures
        i <= sentence_end(t, i) <= t.len(),
    decreases t.len() - i,
{
    if i < t.len() && !ends_sentence(t, i) {
        lemma_sentence_end_bounds(t, i + 1);
    }
}

} // verus!

verus! {

// ── normal form of text that follows other text ─────────────────────────────

proof fn lemma_clean_add(a: Seq<char>, b: Seq<char>)
    ensures
        clean(a + b) == clean(a) + clean(b),
    decreases b.len(),
{
    if b.len() == 0 {
        assert(a + b =~= a);
        assert(clean(a) + clean(b) =~= clean(a));
    } else {
        lemma_clean_add(a, b.drop_last());
        assert((a + b).drop_last() =~= a + b.drop_last());
        assert((a + b).last() == b.last());
        if kept_char(b.last()) {
            assert((clean(a) + clean(b.drop_last())).push(b.last()) =~= clean(a) + clean(
                b.drop_last(),
            ).push(b.last()));
        }
    }
}

proof fn lemma_clean_lines_kept(p: Seq<Seq<char>>)
    requires
        forall|k: int| 0 <= k < p.len() ==> is_clean_line(#[trigger] p[k]),
    ensures
        forall|k: int| 0 <= k < p.len() ==> all_kept(#[trigger] p[k]),
{
    assert forall|k: int| 0 <= k < p.len() implies all_kept(#[trigger] p[k]) by {
        assert(is_clean_line(p[k]));
        assert forall|i: int| 0 <= i < p[k].len() implies kept_char(#[trigger] p[k][i]) by {
            assert(p[k][i] == ' ' || is_visible(p[k][i]));
        }
    }
}

/// Squeezing lines that follow a non-blank line and hold no blank run
/// leaves them as they are.
proof fn lemma_squeeze_append(a: Seq<Seq<char>>, b: Seq<Seq<char>>)
    requires
        a.len() > 0,
        a.last().len() > 0,
        no_blank_run(b),
    ensures
        squeeze(a + b) == squeeze(a) + b,
        squeeze(a).len() > 0,
        squeeze(a).last() == a.last(),
    decreases b.len(),
{
    if b.len() == 0 {
        assert(a + b =~= a);
        assert(squeeze(a) + b =~= squeeze(a));
    } else {
        let bi = b.drop_last();
        assert forall|k: int| 0 <= k < bi.len() - 1 implies #[trigger] bi[k].len() > 0 || bi[k
            + 1].len() > 0 by {
            assert(b[k].len() > 0 || b[k + 1].len() > 0);
        }
        lemma_squeeze_append(a, bi);
        let t = a + b;
        assert(t.drop_last() =~= a + bi);
        assert(t.last() == b.last());
        let r = squeeze(a + bi);
        if b.last().len() == 0 {
            if bi.len() > 0 {
                assert(b[b.len() - 2].len() > 0 || b[b.len() - 1].len() > 0);
                assert(r.last() == bi.last());
            } else {
                assert(r =~= squeeze(a));
            }
        }
        assert((squeeze(a) + bi).push(b.last()) =~= squeeze(a) + b);
    }
}

/// The lines of a text whose characters are all kept and whose last piece is
/// not empty are its pieces.
proof fn lemma_lines_of_kept(t: Seq<char>)
    requires
        all_kept(t),
        split(t, Separator::Newline).last().len() > 0,
    ensures
        lines(t) == split(t, Separator::Newline),
{
    let p = split(t, Separator::Newline);
    lemma_split_nonempty(t, Separator::Newline);
    lemma_pieces_kept(t);
    assert(p.drop_last().map_values(|l: Seq<char>| strip_cr(l)) =~= p.drop_last()) by {
        assert forall|k: int| 0 <= k < p.len() - 1 implies strip_cr(#[trigger] p[k]) == p[k] by {
            if p[k].len() > 0 {
                assert(kept_char(p[k][p[k].len() - 1]));
            }
        }
    }
    assert(p.drop_last().push(p.last()) =~= p);
}

/// The pieces of a text whose characters are all kept hold only such characters.
proof fn lemma_pieces_kept(t: Seq<char>)
    requires
        all_kept(t),
    ensures
        forall|k: int| 0 <= k < split(t, Separator::Newline).len() ==> all_kept(
            #[trigger] split(t, Separator::Newline)[k],
        ),
    decreases t.len(),
{
    let nl = Separator::Newline;
    if t.len() > 0 {
        let init = t.drop_last();
        assert(all_kept(init)) by {
            assert forall|i: int| 0 <= i < init.len() implies kept_char(#[trigger] init[i]) by {
                assert(init[i] == t[i]);
            }
        }
        lemma_pieces_kept(init);
        lemma_split_nonempty(init, nl);
        let r = split(init, nl);
        let p = split(t, nl);
        if !separates(nl, t.last()) {
            assert forall|k: int| 0 <= k < p.len() implies all_kept(#[trigger] p[k]) by {
                if k == p.len() - 1 {
                    assert(all_kept(r[k]));
                    assert(p[k] == r[k].push(t.last()));
                    assert forall|i: int| 0 <= i < p[k].len() implies kept_char(#[trigger] p[k][i]) by {
                        if i < r[k].len() {
                            assert(p[k][i] == r[k][i]);
                        } else {
                            assert(p[k][i] == t.last());
                        }
                    }
                } else {
                    assert(p[k] == r[k]);
                }
            }
        } else {
            assert forall|k: int| 0 <= k < p.len() implies all_kept(#[trigger] p[k]) by {
                if k < r.len() {
                    assert(p[k] == r[k]);
                }
            }
        }
    }
}

/// Text `y` whose lines are all clean, with no two blank lines in a row and a
/// non-blank last line, comes out of normalisation unchanged when it follows,
/// after a line break, text whose last line is not blank.
proof fn lemma_normal_form_append(x: Seq<char>, y: Seq<char>)
    requires
        split(clean(x), Separator::Newline).last().len() > 0,
        collapse_line(split(clean(x), Separator::Newline).last()).len() > 0,
        forall|k: int|
            0 <= k < split(y, Separator::Newline).len() ==> is_clean_line(
                #[trigger] split(y, Separator::Newline)[k],
            ),
        no_blank_run(split(y, Separator::Newline)),
        split(y, Separator::Newline).last().len() > 0,
    ensures
        normal_form(x + seq!['\n'] + y) == normal_form(x) + seq!['\n'] + y,
{
    let nl = Separator::Newline;
    let cx = clean(x);
    let px = split(cx, nl);
    let py = split(y, nl);
    lemma_split_nonempty(cx, nl);
    lemma_split_nonempty(y, nl);
    // `y` and the line break are kept as they are
    lemma_join_split(y, '\n', nl);
    lemma_clean_lines_kept(py);
    lemma_join_kept(py, '\n');
    lemma_clean_unchanged(y);
    let brk = seq!['\n'];
    assert(brk.drop_last() =~= Seq::<char>::empty());
    assert(brk.last() == '\n' && kept_char('\n'));
    assert(clean(brk.drop_last()) =~= Seq::<char>::empty());
    assert(clean(brk) =~= brk);
    lemma_clean_add(x, brk);
    lemma_clean_add(x + brk, y);
    let t = cx + brk + y;
    assert(clean(x + brk + y) == t);
    lemma_clean_kept(x);
    assert(all_kept(t)) by {
        assert forall|i: int| 0 <= i < t.len() implies kept_char(#[trigger] t[i]) by {
            if i < cx.len() {
                assert(t[i] == cx[i]);
            } else if i == cx.len() {
                assert(t[i] == '\n');
            } else {
                assert(t[i] == y[i - cx.len() - 1]);
            }
        }
    }
    // the lines of the whole are those of `x`, then those of `y`
    lemma_split_concat(cx, '\n', y, nl);
    let p = px + py;
    assert(p.last() == py.last());
    lemma_lines_of_kept(t);
    lemma_lines_of_kept(cx);
    assert(lines(t) == px + py);
    // collapsing changes no line of `y`
    let a = px.map_values(|l: Seq<char>| collapse_line(l));
    assert(p.map_values(|l: Seq<char>| collapse_line(l)) =~= a + py) by {
        assert forall|k: int| 0 <= k < py.len() implies collapse_line(#[trigger] py[k]) == py[k] by {
            lemma_collapse_unchanged(py[k]);
        }
    }
    assert(a.last() == collapse_line(px.last()));
    lemma_squeeze_append(a, py);
    let sa = squeeze(a);
    assert((sa + py).last() == py.last());
    assert(drop_trailing_blank(sa + py) == sa + py);
    assert(drop_trailing_blank(sa) == sa);
    lemma_join_concat(sa, py, brk);
}

/// The last line of text that ends in a visible character is not blank,
/// before and after collapsing.
proof fn lemma_last_line_visible(x: Seq<char>)
    requires
        x.len() > 0,
        is_visible(x.last()),
    ensures
        split(clean(x), Separator::Newline).last().len() > 0,
        collapse_line(split(clean(x), Separator::Newline).last()).len() > 0,
{
    let nl = Separator::Newline;
    let cx = clean(x);
    assert(cx == clean(x.drop_last()).push(x.last()));
    let r = split(cx.drop_last(), nl);
    lemma_split_nonempty(cx.drop_last(), nl);
    assert(cx.drop_last() =~= clean(x.drop_last()));
    let l = split(cx, nl).last();
    assert(l == r.last().push(x.last()));
    assert(l.drop_last() =~= r.last());
    assert(visible_text(l) == visible_text(l.drop_last()).push(x.last()));
    lemma_visible_collapse(l);
    if collapse_line(l).len() == 0 {
        assert(collapse_line(l) =~= Seq::<char>::empty());
        assert(visible_text(collapse_line(l)).len() == 0);
    }
}

/// A tag of visible characters is a clean line without line breaks.
proof fn lemma_tag_line(tag: Seq<char>)
    requires
        forall|i: int| 0 <= i < tag.len() ==> is_visible(#[trigger] tag[i]),
    ensures
        is_clean_line(tag),
        forall|i: int| 0 <= i < tag.len() ==> !separates(Separator::Newline, #[trigger] tag[i]),
{
    if tag.len() > 0 {
        assert(is_visible(tag[0]) && is_visible(tag[tag.len() - 1]));
    }
    assert forall|i: int| 0 <= i < tag.len() - 1 implies !(#[trigger] tag[i] == ' ' && tag[i + 1]
        == ' ') by {
        assert(is_visible(tag[i]));
    }
    assert forall|i: int| 0 <= i < tag.len() implies !separates(Separator::Newline, #[trigger] tag[i]) by {
        assert(is_visible(tag[i]));
    }
}

/// Two clean lines written one after the other make a clean line.
proof fn lemma_clean_concat(a: Seq<char>, b: Seq<char>)
    requires
        is_clean_line(a),
        is_clean_line(b),
    ensures
        is_clean_line(a + b),
{
    let t = a + b;
    assert forall|i: int| 0 <= i < t.len() implies #[trigger] t[i] == ' ' || is_visible(t[i]) by {
        if i < a.len() {
            assert(t[i] == a[i]);
        } else {
            assert(t[i] == b[i - a.len()]);
        }
    }
    if t.len() > 0 {
        if a.len() > 0 {
            assert(t[0] == a[0]);
        } else {
            assert(t[0] == b[0]);
        }
        if b.len() > 0 {
            assert(t.last() == b.last());
        } else {
            assert(t.last() == a.last());
        }
    }
    assert forall|i: int| 0 <= i < t.len() - 1 implies !(#[trigger] t[i] == ' ' && t[i + 1] == ' ') by {
        if i + 1 < a.len() {
            assert(t[i] == a[i] && t[i + 1] == a[i + 1]);
        } else if i >= a.len() {
            assert(t[i] == b[i - a.len()] && t[i + 1] == b[i + 1 - a.len()]);
        } else {
            assert(t[i] == a.last());
        }
    }
}

/// A line of text framed inline by two tags after some instructions: when
/// the instructions end in a visible character, the tags are visible
/// characters only and the text is in normal form, normalising the whole
/// normalises the instructions and leaves the tags and the text as they are.
pub proof fn lemma_inline_framed(x: Seq<char>, open: Seq<char>, n: Seq<char>, close: Seq<char>)
    requires
        x.len() > 0,
        is_visible(x.last()),
        open.len() > 0,
        close.len() > 0,
        forall|i: int| 0 <= i < open.len() ==> is_visible(#[trigger] open[i]),
        forall|i: int| 0 <= i < close.len() ==> is_visible(#[trigger] close[i]),
        is_normalized(n),
    ensures
        normal_form(x + seq!['\n', '\n'] + open + n + close) == normal_form(x) + seq!['\n', '\n']
            + open + n + close,
{
    let nl = Separator::Newline;
    let brk = seq!['\n'];
    let e = Seq::<char>::empty();
    lemma_last_line_visible(x);
    lemma_tag_line(open);
    lemma_tag_line(close);
    let pn = split(n, nl);
    lemma_split_nonempty(n, nl);
    lemma_split_prefix(open, n, nl);
    let p = split(open + n, nl);
    assert(p == pn.update(0, open + pn[0]));
    lemma_split_append(open + n, close, nl);
    let q = split(open + n + close, nl);
    assert(q == p.update(p.len() - 1, p.last() + close));
    let y = e + brk + (open + n + close);
    lemma_split_concat(e, '\n', open + n + close, nl);
    assert(split(e, nl) =~= seq![e]);
    let ys = seq![e] + q;
    assert(split(y, nl) == ys);
    // each piece of `q` is a line of `n`, with the opening tag before the
    // first and the closing tag after the last
    assert forall|k: int| 0 <= k < q.len() implies is_clean_line(#[trigger] q[k]) && q[k].len()
        >= pn[k].len() by {
        assert(is_clean_line(pn[k]));
        if k == 0 && k == q.len() - 1 {
            assert(q[k] == open + pn[k] + close);
            lemma_clean_concat(open, pn[k]);
            lemma_clean_concat(open + pn[k], close);
        } else if k == 0 {
            assert(q[k] == open + pn[k]);
            lemma_clean_concat(open, pn[k]);
        } else if k == q.len() - 1 {
            assert(q[k] == pn[k] + close);
            lemma_clean_concat(pn[k], close);
        } else {
            assert(q[k] == pn[k]);
        }
    }
    assert(q[0].len() > 0) by {
        if q.len() == 1 {
            assert(q[0] == open + pn[0] + close);
        } else {
            assert(q[0] == open + pn[0]);
        }
    }
    assert(q.last().len() > 0);
    assert forall|k: int| 0 <= k < ys.len() implies is_clean_line(#[trigger] ys[k]) by {
        if k > 0 {
            assert(ys[k] == q[k - 1]);
        }
    }
    assert forall|k: int| 0 <= k < ys.len() - 1 implies #[trigger] ys[k].len() > 0 || ys[k
        + 1].len() > 0 by {
        if k == 0 {
            assert(ys[k + 1] == q[0]);
        } else {
            assert(ys[k] == q[k - 1] && ys[k + 1] == q[k]);
            assert(pn[k - 1].len() > 0 || pn[k].len() > 0);
        }
    }
    assert(ys.last() == q.last());
    lemma_normal_form_append(x, y);
    assert(x + brk + y =~= x + seq!['\n', '\n'] + open + n + close);
    assert(normal_form(x) + brk + y =~= normal_form(x) + seq!['\n', '\n'] + open + n + close);
}

/// A block framed by two tag lines after some instructions: when the
/// instructions end in a visible character, the tags are visible characters
/// only and the block is in normal form, normalising the whole normalises the
/// instructions and leaves the tag lines and the block as they are.
#[verifier::rlimit(30)]
pub proof fn lemma_framed_block(x: Seq<char>, open: Seq<char>, n: Seq<char>, close: Seq<char>)
    requires
        x.len() > 0,
        is_visible(x.last()),
        open.len() > 0,
        close.len() > 0,
        forall|i: int| 0 <= i < open.len() ==> is_visible(#[trigger] open[i]),
        forall|i: int| 0 <= i < close.len() ==> is_visible(#[trigger] close[i]),
        is_normalized(n),
    ensures
        normal_form(x + seq!['\n', '\n'] + open + seq!['\n'] + n + seq!['\n'] + close) == normal_form(x)
            + seq!['\n', '\n'] + open + seq!['\n'] + n + seq!['\n'] + close,
{
    let nl = Separator::Newline;
    let brk = seq!['\n'];
    let e = Seq::<char>::empty();
    lemma_last_line_visible(x);
    // the lines after the instructions
    let rest3 = n + brk + close;
    let rest2 = open + brk + rest3;
    let y = e + brk + rest2;
    lemma_tag_line(open);
    lemma_tag_line(close);
    lemma_split_single(open, nl);
    lemma_split_single(close, nl);
    lemma_split_concat(n, '\n', close, nl);
    lemma_split_concat(open, '\n', rest3, nl);
    lemma_split_concat(e, '\n', rest2, nl);
    assert(split(e, nl) =~= seq![e]);
    let pn = split(n, nl);
    lemma_split_nonempty(n, nl);
    let ys = seq![e] + (seq![open] + (pn + seq![close]));
    assert(split(y, nl) == ys);
    assert(ys =~= seq![e, open] + pn + seq![close]);
    // each of them is clean
    assert forall|k: int| 0 <= k < ys.len() implies is_clean_line(#[trigger] ys[k]) by {
        if k == 0 {
            assert(ys[k] == e);
        } else if k == 1 {
            assert(ys[k] == open);
        } else if k < 2 + pn.len() {
            assert(ys[k] == pn[k - 2]);
        } else {
            assert(ys[k] == close);
        }
    }
    // no two blank lines follow each other
    assert forall|k: int| 0 <= k < ys.len() - 1 implies #[trigger] ys[k].len() > 0 || ys[k
        + 1].len() > 0 by {
        if k == 0 {
            assert(ys[k + 1] == open);
        } else if k == 1 {
            assert(ys[k] == open);
        } else if k < 1 + pn.len() {
            assert(ys[k] == pn[k - 2] && ys[k + 1] == pn[k - 1]);
            assert(pn[k - 2].len() > 0 || pn[k - 1].len() > 0);
        } else {
            assert(ys[k + 1] == close);
        }
    }
    assert(ys.last() == close);
    lemma_normal_form_append(x, y);
    assert(x + brk + y =~= x + seq!['\n', '\n'] + open + seq!['\n'] + n + seq!['\n'] + close);
    assert(normal_form(x) + brk + y =~= normal_form(x) + seq!['\n', '\n'] + open + seq!['\n'] + n
        + seq!['\n'] + close);
}

} // verus!
