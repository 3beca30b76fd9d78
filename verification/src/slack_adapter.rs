//! The Slack surface of the interface layer: a message becomes a prompt
//! payload after Slack's markup is cleaned up.
use vstd::prelude::*;

use crate::cli_adapter::{
    command_payload, command_word, from_command, inferred_payload, outcome_view,
    command_prompt_is_normalized,
    parse_command_word, raw_query_outcome,
};
use crate::normalizer::{
    extract_goal, infer_task_type, normal_form, normalize, validate, validation, is_normalized,
    lemma_normal_form_is_normalized, MAX_PROMPT_CHARS,
};
use crate::text::{append_chars, has_prefix, owned, chars_of, slice_chars, string_of, trim_start, whitespace,
    lemma_trim_start_suffix, Separator};
use crate::types::{
    is_v4_id, InterfaceSource, PayloadView, PromptError, PromptPayload, SourceView,
};

verus! {

/// A message addressed to the bot in Slack.
pub struct SlackMessage {
    pub user_id: String,
    pub channel_id: String,
    pub text: String,
}

// ── Slack markup ─────────────────────────────────────────────────────────────

/// The first position at or after `i` that holds `c`, or the length of `s`.
pub open spec fn find_char(s: Seq<char>, c: char, i: int) -> int
    decreases s.len() - i,
{
    if i >= s.len() {
        s.len() as int
    } else if s[i] == c {
        i
    } else {
        find_char(s, c, i + 1)
    }
}

pub proof fn lemma_find_bounds(s: Seq<char>, c: char, i: int)
    requires
        0 <= i <= s.len(),
    ensures
        i <= find_char(s, c, i) <= s.len(),
    decreases s.len() - i,
{
    if i < s.len() && s[i] != c {
        lemma_find_bounds(s, c, i + 1);
    }
}

/// The text without the bot mention (`<@…>`) that leads it, if one does.
pub open spec fn without_leading_mention(s: Seq<char>) -> Seq<char> {
    let t = trim_start(s);
    let close = find_char(t, '>', 2);
    if t.len() >= 2 && t[0] == '<' && t[1] == '@' && close < t.len() {
        t.skip(close + 1)
    } else {
        s
    }
}

/// The readable form of the inside of a `<…>` reference: `@U123` for a user
/// mention, `#general` for a channel reference (its label when it has one),
/// `label (url)` for a labelled link and the bare url otherwise.
pub open spec fn rendered_ref(inner: Seq<char>) -> Seq<char> {
    let bar = find_char(inner, '|', 0);
    let target = inner.take(bar);
    let has_label = bar < inner.len();
    let label = inner.skip(bar + 1);
    if target.len() > 0 && (target[0] == '@' || target[0] == '#') {
        seq![target[0]] + if has_label {
            label
        } else {
            target.skip(1)
        }
    } else if has_label {
        label + " ("@ + target + ")"@
    } else {
        target
    }
}

/// The text with every `<…>` reference replaced by its readable form.
pub open spec fn rewritten_refs(s: Seq<char>) -> Seq<char>
    decreases s.len(),
{
    if s.len() == 0 {
        s
    } else {
        let close = find_char(s, '>', 1);
        proof {
            lemma_find_bounds(s, '>', 1);
        }
        if s[0] == '<' && close < s.len() {
            rendered_ref(s.subrange(1, close)) + rewritten_refs(s.skip(close + 1))
        } else {
            seq![s[0]] + rewritten_refs(s.skip(1))
        }
    }
}

/// The text with Slack's three HTML entities decoded, left to right.
pub open spec fn decoded(s: Seq<char>) -> Seq<char>
    decreases s.len(),
{
    if s.len() == 0 {
        s
    } else if has_prefix(s, seq!['&', 'a', 'm', 'p', ';']) {
        seq!['&'] + decoded(s.skip(5))
    } else if has_prefix(s, seq!['&', 'l', 't', ';']) {
        seq!['<'] + decoded(s.skip(4))
    } else if has_prefix(s, seq!['&', 'g', 't', ';']) {
        seq!['>'] + decoded(s.skip(4))
    } else {
        seq![s[0]] + decoded(s.skip(1))
    }
}

/// A Slack message's text as plain text: the leading bot mention stripped,
/// references rewritten, entities decoded.
pub open spec fn slack_plain_text(s: Seq<char>) -> Seq<char> {
    decoded(rewritten_refs(without_leading_mention(s)))
}

/// The background that a Slack payload carries: who wrote it and where.
pub open spec fn slack_context(user_id: Seq<char>, channel_id: Seq<char>) -> Seq<char> {
    "Slack message from user "@ + user_id + " in channel "@ + channel_id
}

/// What a Slack message gives: the verdict of validation on the normal form
/// of its plain text if that refuses it; otherwise the payload of its command
/// verb, or the inferred payload, from the Slack surface with its context and
/// the message text as raw input.
pub open spec fn message_outcome(user_id: Seq<char>, channel_id: Seq<char>, text: Seq<char>) -> Result<
    PayloadView,
    PromptError,
> {
    let norm = normal_form(slack_plain_text(text));
    let source = SourceView::Slack { user_id, channel_id };
    let context = Some(slack_context(user_id, channel_id));
    match validation(norm) {
        Err(e) => Err(e),
        Ok(_) => match command_word(norm) {
            Some(c) => Ok(
                PayloadView { source, raw_input: text, context, ..command_payload(c) },
            ),
            None => Ok(inferred_payload(source, text, norm, context)),
        },
    }
}

fn find_in(s: &Vec<char>, c: char, from: usize) -> (r: usize)
    requires
        from <= s.len(),
    ensures
        r as int == find_char(s@, c, from as int),
{
    let mut i = from;
    while i < s.len() && s[i] != c
        invariant
            from <= i <= s.len(),
            find_char(s@, c, from as int) == find_char(s@, c, i as int),
        decreases s.len() - i,
    {
        i += 1;
    }
    i
}

fn strip_leading_mention(s: &Vec<char>) -> (r: Vec<char>)
    ensures
        r@ == without_leading_mention(s@),
{
    let n = s.len();
    let mut i: usize = 0;
    assert(s@.subrange(0, n as int) == s@);
    while i < n && whitespace(s[i])
        invariant
            i <= n == s.len(),
            trim_start(s@) == trim_start(s@.subrange(i as int, n as int)),
        decreases n - i,
    {
        proof {
            crate::text::lemma_trim_start_sub(s@, i as int, crate::text::Separator::Whitespace);
        }
        i += 1;
    }
    let t = slice_chars(s, i, n);
    if t.len() >= 2 && t[0] == '<' && t[1] == '@' {
        let close = find_in(&t, '>', 2);
        if close < t.len() {
            let r = slice_chars(&t, close + 1, t.len());
            assert(r@ =~= t@.skip(close + 1));
            return r;
        }
    }
    slice_chars(s, 0, n)
}

fn render_ref(inner: &Vec<char>) -> (r: Vec<char>)
    ensures
        r@ == rendered_ref(inner@),
{
    let n = inner.len();
    let bar = find_in(inner, '|', 0);
    proof {
        lemma_find_bounds(inner@, '|', 0);
    }
    let target = slice_chars(inner, 0, bar);
    assert(target@ =~= inner@.take(bar as int));
    let has_label = bar < n;
    let label = if has_label {
        slice_chars(inner, bar + 1, n)
    } else {
        Vec::new()
    };
    assert(has_label ==> label@ =~= inner@.skip(bar + 1));
    if target.len() > 0 && (target[0] == '@' || target[0] == '#') {
        let mut r = vec![target[0]];
        if has_label {
            append_chars(&mut r, &label);
        } else {
            let id = slice_chars(&target, 1, target.len());
            assert(id@ =~= target@.skip(1));
            append_chars(&mut r, &id);
        }
        r
    } else if has_label {
        let mut r = slice_chars(&label, 0, label.len());
        assert(r@ =~= label@);
        append_chars(&mut r, &chars_of(" ("));
        append_chars(&mut r, &target);
        append_chars(&mut r, &chars_of(")"));
        r
    } else {
        target
    }
}

fn rewrite_refs(s: &Vec<char>) -> (r: Vec<char>)
    ensures
        r@ == rewritten_refs(s@),
{
    let n = s.len();
    let mut out: Vec<char> = Vec::new();
    let mut i: usize = 0;
    assert(s@.skip(0) =~= s@);
    while i < n
        invariant
            i <= n == s.len(),
            out@ + rewritten_refs(s@.skip(i as int)) == rewritten_refs(s@),
        decreases n - i,
    {
        let ghost rest = s@.skip(i as int);
        let close = find_in(s, '>', i + 1);
        proof {
            lemma_find_shift(s@, '>', i as int, i + 1);
            lemma_find_bounds(s@, '>', i + 1);
        }
        if s[i] == '<' && close < n {
            let inner = slice_chars(s, i + 1, close);
            assert(inner@ =~= rest.subrange(1, close - i));
            let piece = render_ref(&inner);
            assert(rest.skip(close - i + 1) =~= s@.skip(close + 1));
            append_chars(&mut out, &piece);
            i = close + 1;
        } else {
            assert(rest.skip(1) =~= s@.skip(i + 1));
            out.push(s[i]);
            i += 1;
        }
    }
    assert(s@.skip(n as int) =~= Seq::<char>::empty());
    assert(out@ + Seq::<char>::empty() =~= out@);
    out
}

/// Searching a suffix finds the same place, shifted.
proof fn lemma_find_shift(s: Seq<char>, c: char, i: int, j: int)
    requires
        0 <= i < j <= s.len(),
    ensures
        find_char(s.skip(i), c, j - i) == find_char(s, c, j) - i,
    decreases s.len() - j,
{
    if j < s.len() && s[j] != c {
        lemma_find_shift(s, c, i, j + 1);
    }
}

fn entity_at(s: &Vec<char>, i: usize, p: &Vec<char>) -> (r: bool)
    requires
        i <= s.len(),
    ensures
        r == has_prefix(s@.skip(i as int), p@),
{
    if p.len() > s.len() - i {
        return false;
    }
    let piece = slice_chars(s, i, i + p.len());
    assert(piece@ =~= s@.skip(i as int).take(p.len() as int));
    crate::text::chars_eq(&piece, p)
}

fn decode_entities(s: &Vec<char>) -> (r: Vec<char>)
    ensures
        r@ == decoded(s@),
{
    let amp = vec!['&', 'a', 'm', 'p', ';'];
    let lt = vec!['&', 'l', 't', ';'];
    let gt = vec!['&', 'g', 't', ';'];
    assert(amp@ =~= seq!['&', 'a', 'm', 'p', ';']);
    assert(lt@ =~= seq!['&', 'l', 't', ';']);
    assert(gt@ =~= seq!['&', 'g', 't', ';']);
    let n = s.len();
    let mut out: Vec<char> = Vec::new();
    let mut i: usize = 0;
    assert(s@.skip(0) =~= s@);
    while i < n
        invariant
            i <= n == s.len(),
            amp@ == seq!['&', 'a', 'm', 'p', ';'],
            lt@ == seq!['&', 'l', 't', ';'],
            gt@ == seq!['&', 'g', 't', ';'],
            out@ + decoded(s@.skip(i as int)) == decoded(s@),
        decreases n - i,
    {
        let ghost rest = s@.skip(i as int);
        if entity_at(s, i, &amp) {
            assert(rest.skip(5) =~= s@.skip(i + 5));
            out.push('&');
            i += 5;
        } else if entity_at(s, i, &lt) {
            assert(rest.skip(4) =~= s@.skip(i + 4));
            out.push('<');
            i += 4;
        } else if entity_at(s, i, &gt) {
            assert(rest.skip(4) =~= s@.skip(i + 4));
            out.push('>');
            i += 4;
        } else {
            assert(rest.skip(1) =~= s@.skip(i + 1));
            out.push(s[i]);
            i += 1;
        }
    }
    assert(s@.skip(n as int) =~= Seq::<char>::empty());
    assert(out@ + Seq::<char>::empty() =~= out@);
    out
}

/// Slack-specific cleanup before normalisation: strip the leading bot
/// mention, rewrite mentions, channel references and links into readable
/// text, and decode Slack's HTML entities.
pub fn plain_text(text: &str) -> (r: String)
    ensures
        r@ == slack_plain_text(text@),
{
    let chars = chars_of(text);
    let stripped = strip_leading_mention(&chars);
    let rewritten = rewrite_refs(&stripped);
    let decoded = decode_entities(&rewritten);
    string_of(&decoded)
}

fn context_of(msg: &SlackMessage) -> (r: String)
    ensures
        r@ == slack_context(msg.user_id@, msg.channel_id@),
{
    let mut v = chars_of("Slack message from user ");
    append_chars(&mut v, &chars_of(msg.user_id.as_str()));
    append_chars(&mut v, &chars_of(" in channel "));
    append_chars(&mut v, &chars_of(msg.channel_id.as_str()));
    string_of(&v)
}

fn source_of(msg: &SlackMessage) -> (r: InterfaceSource)
    ensures
        r@ == (SourceView::Slack { user_id: msg.user_id@, channel_id: msg.channel_id@ }),
{
    InterfaceSource::Slack {
        user_id: owned(msg.user_id.as_str()),
        channel_id: owned(msg.channel_id.as_str()),
    }
}

/// Convert a Slack message into a PromptPayload. Rejects messages that are
/// empty after cleanup and normalisation (a mention alone, say) or beyond the
/// length cap. A leading command verb routes through the same builder as the
/// equivalent subcommand; otherwise the task type is inferred from keywords.
pub fn from_message(msg: &SlackMessage) -> (r: Result<PromptPayload, PromptError>)
    ensures
        outcome_view(r) == message_outcome(msg.user_id@, msg.channel_id@, msg.text@),
        r matches Ok(p) ==> is_v4_id(p.id@),
{
    let cleaned = plain_text(msg.text.as_str());
    let normalized = normalize(cleaned.as_str());
    validate(normalized.as_str())?;
    if let Some(cmd) = parse_command_word(normalized.as_str()) {
        let mut payload = from_command(&cmd);
        payload.source = source_of(msg);
        payload.raw_input = owned(msg.text.as_str());
        payload.context = Some(context_of(msg));
        return Ok(payload);
    }
    let task_type = infer_task_type(normalized.as_str());
    let goal = extract_goal(normalized.as_str());
    let skill = if task_type.is_write() {
        None
    } else {
        Some(owned("ASKS"))
    };
    Ok(PromptPayload::new(
        source_of(msg),
        owned(msg.text.as_str()),
        normalized,
        goal,
        Some(context_of(msg)),
        task_type,
        skill,
    ))
}

} // verus!

verus! {

/// Every payload of a Slack message comes from the Slack surface with the
/// message's user and channel, carries them in its context, keeps the message
/// text as raw input, and holds a prompt in normal form; the message is
/// refused exactly when the normal form of its plain text is empty or longer
/// than the cap.
pub proof fn message_payload_origin(user_id: Seq<char>, channel_id: Seq<char>, text: Seq<char>)
    ensures
        message_outcome(user_id, channel_id, text) is Err <==> (normal_form(
            slack_plain_text(text),
        ).len() == 0 || normal_form(slack_plain_text(text)).len() > MAX_PROMPT_CHARS),
        message_outcome(user_id, channel_id, text) matches Ok(p) ==> {
            &&& p.source == (SourceView::Slack { user_id, channel_id })
            &&& p.context == Some(slack_context(user_id, channel_id))
            &&& p.raw_input == text
            &&& is_normalized(p.normalized_prompt)
        },
{
    let norm = normal_form(slack_plain_text(text));
    lemma_normal_form_is_normalized(slack_plain_text(text));
    if let Some(c) = command_word(norm) {
        command_prompt_is_normalized(c);
    }
}

/// The agent never needs to know the surface: a Slack message gives the same
/// verdict, prompt, goal, task type and skill as the same plain text typed as
/// a free-text query on the command line.
pub proof fn surfaces_agree(user_id: Seq<char>, channel_id: Seq<char>, text: Seq<char>)
    ensures
        ({
            let m = message_outcome(user_id, channel_id, text);
            let q = raw_query_outcome(slack_plain_text(text));
            &&& m is Err <==> q is Err
            &&& m matches Err(e) ==> q == Err::<PayloadView, PromptError>(e)
            &&& m matches Ok(p) ==> q matches Ok(r) && p.normalized_prompt == r.normalized_prompt
                && p.goal == r.goal && p.task_type == r.task_type && p.skill == r.skill
        }),
{
}

proof fn lemma_refs_plain(s: Seq<char>)
    requires
        !s.contains('<'),
    ensures
        rewritten_refs(s) == s,
    decreases s.len(),
{
    if s.len() > 0 {
        assert(s[0] != '<');
        assert(!s.skip(1).contains('<')) by {
            if s.skip(1).contains('<') {
                let i = choose|i: int| 0 <= i < s.skip(1).len() && s.skip(1)[i] == '<';
                assert(s[i + 1] == '<');
            }
        }
        lemma_refs_plain(s.skip(1));
        assert(seq![s[0]] + s.skip(1) =~= s);
    }
}

proof fn lemma_decoded_plain(s: Seq<char>)
    requires
        !s.contains('&'),
    ensures
        decoded(s) == s,
    decreases s.len(),
{
    if s.len() > 0 {
        assert(s[0] != '&');
        assert(!has_prefix(s, seq!['&', 'a', 'm', 'p', ';'])) by {
            if has_prefix(s, seq!['&', 'a', 'm', 'p', ';']) {
                assert(s.take(5)[0] == s[0]);
            }
        }
        assert(!has_prefix(s, seq!['&', 'l', 't', ';'])) by {
            if has_prefix(s, seq!['&', 'l', 't', ';']) {
                assert(s.take(4)[0] == s[0]);
            }
        }
        assert(!has_prefix(s, seq!['&', 'g', 't', ';'])) by {
            if has_prefix(s, seq!['&', 'g', 't', ';']) {
                assert(s.take(4)[0] == s[0]);
            }
        }
        assert(!s.skip(1).contains('&')) by {
            if s.skip(1).contains('&') {
                let i = choose|i: int| 0 <= i < s.skip(1).len() && s.skip(1)[i] == '&';
                assert(s[i + 1] == '&');
            }
        }
        lemma_decoded_plain(s.skip(1));
        assert(seq![s[0]] + s.skip(1) =~= s);
    }
}

/// A message without Slack markup (no `<` and no `&`) is its own plain text.
pub proof fn plain_messages_pass_through(text: Seq<char>)
    requires
        !text.contains('<'),
        !text.contains('&'),
    ensures
        slack_plain_text(text) == text,
{
    let t = trim_start(text);
    lemma_trim_start_suffix(text, Separator::Whitespace);
    if t.len() >= 2 {
        assert(t[0] == text[text.len() - t.len()]);
    }
    assert(without_leading_mention(text) == text);
    lemma_refs_plain(text);
    lemma_decoded_plain(text);
}

/// Every `<` of `a` opens a reference that closes within `a`: the text ends
/// outside a reference.
pub open spec fn refs_closed(a: Seq<char>) -> bool {
    forall|p: int| 0 <= p < a.len() && #[trigger] a[p] == '<' ==> find_char(a, '>', p + 1) < a.len()
}

/// A search that succeeds within `a` finds the same place in `a + b`.
proof fn lemma_find_prefix(a: Seq<char>, b: Seq<char>, c: char, i: int)
    requires
        0 <= i <= a.len(),
        find_char(a, c, i) < a.len(),
    ensures
        find_char(a + b, c, i) == find_char(a, c, i),
    decreases a.len() - i,
{
    assert((a + b)[i] == a[i]);
    if a[i] != c {
        lemma_find_prefix(a, b, c, i + 1);
    }
}

proof fn lemma_refs_closed_skip(a: Seq<char>, k: int)
    requires
        refs_closed(a),
        0 < k <= a.len(),
    ensures
        refs_closed(a.skip(k)),
{
    let t = a.skip(k);
    assert forall|p: int| 0 <= p < t.len() && #[trigger] t[p] == '<' implies find_char(t, '>', p + 1)
        < t.len() by {
        assert(a[p + k] == '<');
        assert(find_char(a, '>', p + k + 1) < a.len());
        lemma_find_shift(a, '>', k, p + k + 1);
    }
}

/// Slack cleanup rewrites every reference, not only the first: text that
/// ends outside a reference is rewritten on its own, and what follows it is
/// rewritten after it.
pub proof fn every_reference_rewritten(a: Seq<char>, b: Seq<char>)
    requires
        refs_closed(a),
    ensures
        rewritten_refs(a + b) == rewritten_refs(a) + rewritten_refs(b),
    decreases a.len(),
{
    let s = a + b;
    if a.len() == 0 {
        assert(s =~= b);
        assert(rewritten_refs(a) + rewritten_refs(b) =~= rewritten_refs(b));
    } else {
        assert(s[0] == a[0]);
        lemma_find_bounds(a, '>', 1);
        lemma_find_bounds(s, '>', 1);
        if a[0] == '<' {
            let ca = find_char(a, '>', 1);
            assert(ca < a.len());
            lemma_find_prefix(a, b, '>', 1);
            assert(s.subrange(1, ca) =~= a.subrange(1, ca));
            assert(s.skip(ca + 1) =~= a.skip(ca + 1) + b);
            lemma_refs_closed_skip(a, ca + 1);
            every_reference_rewritten(a.skip(ca + 1), b);
            assert(rendered_ref(a.subrange(1, ca)) + (rewritten_refs(a.skip(ca + 1)) + rewritten_refs(b))
                =~= rendered_ref(a.subrange(1, ca)) + rewritten_refs(a.skip(ca + 1)) + rewritten_refs(b));
        } else {
            assert(s.skip(1) =~= a.skip(1) + b);
            lemma_refs_closed_skip(a, 1);
            every_reference_rewritten(a.skip(1), b);
            assert(seq![a[0]] + (rewritten_refs(a.skip(1)) + rewritten_refs(b)) =~= seq![a[0]]
                + rewritten_refs(a.skip(1)) + rewritten_refs(b));
        }
    }
}

/// One reference on its own is rewritten into its readable form: a user
/// mention `<@U123>` into `@U123`, a channel reference `<#C456|general>` into
/// `#general`, a labelled link `<url|label>` into `label (url)`.
pub proof fn one_reference_rewritten(inner: Seq<char>)
    requires
        !inner.contains('>'),
    ensures
        refs_closed(seq!['<'] + inner + seq!['>']),
        rewritten_refs(seq!['<'] + inner + seq!['>']) == rendered_ref(inner),
        inner.len() > 1 && inner[0] == '@' && !inner.contains('|') ==> rewritten_refs(
            seq!['<'] + inner + seq!['>'],
        ) == inner,
{
    let s = seq!['<'] + inner + seq!['>'];
    assert forall|k: int| 0 <= k < s.len() - 1 implies s[k] != '>' by {
        if k > 0 {
            assert(s[k] == inner[k - 1]);
        }
    }
    assert(s.last() == '>');
    lemma_find_at_end(s, 1);
    assert(find_char(s, '>', 1) == s.len() - 1);
    assert forall|p: int| 0 <= p < s.len() && #[trigger] s[p] == '<' implies find_char(s, '>', p + 1)
        < s.len() by {
        lemma_find_at_end(s, p + 1);
    }
    assert(s.subrange(1, s.len() - 1) =~= inner);
    assert(s.skip(s.len() as int) =~= Seq::<char>::empty());
    assert(s[0] == '<');
    lemma_find_bounds(s, '>', 1);
    let e = Seq::<char>::empty();
    assert(rewritten_refs(e) == e);
    assert(rewritten_refs(s) == rendered_ref(s.subrange(1, s.len() - 1)) + rewritten_refs(
        s.skip(s.len() as int),
    ));
    assert(rendered_ref(inner) + e =~= rendered_ref(inner));
    if inner.len() > 1 && inner[0] == '@' && !inner.contains('|') {
        lemma_find_absent(inner, '|', 0);
        assert(inner.take(inner.len() as int) =~= inner);
        assert(seq![inner[0]] + inner.skip(1) =~= inner);
    }
}

/// In text whose only `>` is its last character, a search from before it finds it.
proof fn lemma_find_at_end(s: Seq<char>, i: int)
    requires
        s.len() > 0,
        s.last() == '>',
        0 <= i < s.len(),
        forall|k: int| 0 <= k < s.len() - 1 ==> s[k] != '>',
    ensures
        find_char(s, '>', i) == s.len() - 1,
    decreases s.len() - i,
{
    if i < s.len() - 1 {
        lemma_find_at_end(s, i + 1);
    }
}

/// A character that does not occur is searched to the end.
proof fn lemma_find_absent(s: Seq<char>, c: char, i: int)
    requires
        0 <= i <= s.len(),
        !s.contains(c),
    ensures
        find_char(s, c, i) == s.len(),
    decreases s.len() - i,
{
    if i < s.len() {
        assert(s[i] != c);
        lemma_find_absent(s, c, i + 1);
    }
}

} // verus!
