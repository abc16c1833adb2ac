//! Rendering of messages into Markdown through templates with placeholders.
use vstd::prelude::*;
use crate::config::opt_text;
use crate::gotify::GotifyMessage;
use crate::text::{
    i64_text, int_text, lemma_absent_first_char, lemma_no_straddle_after, lemma_no_straddle_before, lemma_replace_exact,
    lemma_replace_split, law_decimal_reads_back, law_replace_absent, occurs_in, replace_all, replace_str,
};

verus! {

/// The template used when the configured one cannot be read.
pub open spec fn default_template_text() -> Seq<char> {
    "### [TITLE]\n\n[MESSAGE]\n\nApp: [APP_ID] • Priority: [PRIORITY] • Message ID: [MESSAGE_ID]\n"@
}

/// The template used when the configured one cannot be read.
pub fn default_template() -> (r: String)
    ensures
        r@ == default_template_text(),
{
    String::from_str("### [TITLE]\n\n[MESSAGE]\n\nApp: [APP_ID] • Priority: [PRIORITY] • Message ID: [MESSAGE_ID]\n")
}

/// Template `t` filled in for a message, one placeholder after the other:
/// `[TITLE]` by the title (or `(no title)`), `[MESSAGE]` by the text (or
/// nothing), then `[APP_ID]`, `[MESSAGE_ID]` and `[PRIORITY]` by those numbers
/// in decimal.
pub open spec fn fill_template(
    t: Seq<char>,
    title: Option<Seq<char>>,
    message: Option<Seq<char>>,
    app_id: i64,
    id: i64,
    priority: i64,
) -> Seq<char> {
    let t1 = replace_all(t, "[TITLE]"@, match title { Some(x) => x, None => "(no title)"@ });
    let t2 = replace_all(t1, "[MESSAGE]"@, match message { Some(x) => x, None => Seq::empty() });
    let t3 = replace_all(t2, "[APP_ID]"@, int_text(app_id as int));
    let t4 = replace_all(t3, "[MESSAGE_ID]"@, int_text(id as int));
    replace_all(t4, "[PRIORITY]"@, int_text(priority as int))
}

/// `t` filled in for message `m`.
pub open spec fn rendered(t: Seq<char>, m: GotifyMessage) -> Seq<char> {
    fill_template(t, opt_text(m.title), opt_text(m.message), m.app_id, m.id, m.priority)
}

/// Renders messages with a default template file and per-route overrides.
#[derive(Clone, Debug)]
pub struct TemplateEngine {
    default_path: String,
}

impl View for TemplateEngine {
    type V = Seq<char>;

    /// The path of the default template.
    closed spec fn view(&self) -> Seq<char> {
        self.default_path@
    }
}

impl TemplateEngine {
    /// An engine whose default template lives at `default`.
    pub fn new(default: String) -> (r: Self)
        ensures
            r@ == default@,
    {
        TemplateEngine { default_path: default }
    }

    /// The template file for a route: its own template when it names one,
    /// else the engine's default.
    pub fn template_path(&self, override_path: Option<&str>) -> (r: String)
        ensures
            r@ == match override_path {
                Some(p) => p@,
                None => self@,
            },
    {
        match override_path {
            Some(p) => String::from_str(p),
            None => self.default_path.clone(),
        }
    }

    /// The Markdown text for message `msg`: the template read from the
    /// route's template file (`loaded`), or the default template when it could
    /// not be read, filled in for the message.
    pub fn render(loaded: Option<String>, msg: &GotifyMessage) -> (r: String)
        ensures
            r@ == rendered(
                match loaded {
                    Some(t) => t@,
                    None => default_template_text(),
                },
                *msg,
            ),
    {
        let template = match loaded {
            Some(t) => t,
            None => default_template(),
        };
        render_text(template.as_str(), msg)
    }
}

/// Template `t` filled in for message `msg`.
pub fn render_text(t: &str, msg: &GotifyMessage) -> (r: String)
    ensures
        r@ == rendered(t@, *msg),
{
    proof {
        reveal_strlit("");
        assert(""@ =~= Seq::<char>::empty());
    }
    let t1 = match &msg.title {
        Some(x) => replace_str(t, "[TITLE]", x.as_str()),
        None => replace_str(t, "[TITLE]", "(no title)"),
    };
    let t2 = match &msg.message {
        Some(x) => replace_str(t1.as_str(), "[MESSAGE]", x.as_str()),
        None => replace_str(t1.as_str(), "[MESSAGE]", ""),
    };
    let app_id = i64_text(msg.app_id);
    let t3 = replace_str(t2.as_str(), "[APP_ID]", app_id.as_str());
    let id = i64_text(msg.id);
    let t4 = replace_str(t3.as_str(), "[MESSAGE_ID]", id.as_str());
    let priority = i64_text(msg.priority);
    replace_str(t4.as_str(), "[PRIORITY]", priority.as_str())
}


/// A template without any `[` holds no placeholder, so every message renders
/// it as it stands.
pub proof fn law_plain_template_unchanged(t: Seq<char>, m: GotifyMessage)
    requires
        !t.contains('['),
    ensures
        rendered(t, m) == t,
{
    reveal_strlit("[TITLE]");
    reveal_strlit("[MESSAGE]");
    reveal_strlit("[APP_ID]");
    reveal_strlit("[MESSAGE_ID]");
    reveal_strlit("[PRIORITY]");
    assert("[TITLE]"@[0] == '[');
    assert("[MESSAGE]"@[0] == '[');
    assert("[APP_ID]"@[0] == '[');
    assert("[MESSAGE_ID]"@[0] == '[');
    assert("[PRIORITY]"@[0] == '[');
    lemma_absent_first_char(t, "[TITLE]"@);
    law_replace_absent(t, "[TITLE]"@, match opt_text(m.title) { Some(x) => x, None => "(no title)"@ });
    lemma_absent_first_char(t, "[MESSAGE]"@);
    law_replace_absent(t, "[MESSAGE]"@, match opt_text(m.message) { Some(x) => x, None => Seq::empty() });
    lemma_absent_first_char(t, "[APP_ID]"@);
    law_replace_absent(t, "[APP_ID]"@, int_text(m.app_id as int));
    lemma_absent_first_char(t, "[MESSAGE_ID]"@);
    law_replace_absent(t, "[MESSAGE_ID]"@, int_text(m.id as int));
    lemma_absent_first_char(t, "[PRIORITY]"@);
    law_replace_absent(t, "[PRIORITY]"@, int_text(m.priority as int));
}


/// The numeric placeholders leave a text without `[` as it is.
proof fn lemma_numbers_leave_plain_text(s: Seq<char>, m: GotifyMessage)
    requires
        !s.contains('['),
    ensures
        replace_all(
            replace_all(replace_all(s, "[APP_ID]"@, int_text(m.app_id as int)), "[MESSAGE_ID]"@, int_text(m.id as int)),
            "[PRIORITY]"@,
            int_text(m.priority as int),
        ) == s,
{
    reveal_strlit("[APP_ID]");
    reveal_strlit("[MESSAGE_ID]");
    reveal_strlit("[PRIORITY]");
    assert("[APP_ID]"@[0] == '[');
    assert("[MESSAGE_ID]"@[0] == '[');
    assert("[PRIORITY]"@[0] == '[');
    lemma_absent_first_char(s, "[APP_ID]"@);
    law_replace_absent(s, "[APP_ID]"@, int_text(m.app_id as int));
    lemma_absent_first_char(s, "[MESSAGE_ID]"@);
    law_replace_absent(s, "[MESSAGE_ID]"@, int_text(m.id as int));
    lemma_absent_first_char(s, "[PRIORITY]"@);
    law_replace_absent(s, "[PRIORITY]"@, int_text(m.priority as int));
}

proof fn lemma_title_not_in_message_placeholder()
    ensures
        !occurs_in("[MESSAGE]"@, "[TITLE]"@),
{
    reveal_strlit("[TITLE]");
    reveal_strlit("[MESSAGE]");
    let s = "[MESSAGE]"@;
    let p = "[TITLE]"@;
    if occurs_in(s, p) {
        let i = choose|i: int| 0 <= i && i + p.len() <= s.len() && #[trigger] s.subrange(i, i + p.len()) == p;
        assert(s.subrange(i, i + p.len())[0] == '[');
        assert(s[i] == '[');
        assert(i == 0);
        assert(s.subrange(i, i + p.len())[1] == 'T');
    }
}

/// `[MESSAGE]` is filled with the message's text whenever the message has
/// one, whatever its title: the title and the text are filled in
/// independently (for a text without placeholders of its own).
pub proof fn law_message_text_filled(m: GotifyMessage, text: Seq<char>)
    requires
        opt_text(m.message) == Some(text),
        !text.contains('['),
    ensures
        rendered("[MESSAGE]"@, m) == text,
{
    let title = match opt_text(m.title) { Some(x) => x, None => "(no title)"@ };
    lemma_title_not_in_message_placeholder();
    law_replace_absent("[MESSAGE]"@, "[TITLE]"@, title);
    reveal_strlit("[MESSAGE]");
    lemma_replace_exact("[MESSAGE]"@, text);
    lemma_numbers_leave_plain_text(text, m);
}

/// `[MESSAGE]` is filled with nothing when the message has no text,
/// whatever its title.
pub proof fn law_missing_text_empty(m: GotifyMessage)
    requires
        m.message is None,
    ensures
        rendered("[MESSAGE]"@, m) == Seq::<char>::empty(),
{
    let title = match opt_text(m.title) { Some(x) => x, None => "(no title)"@ };
    lemma_title_not_in_message_placeholder();
    law_replace_absent("[MESSAGE]"@, "[TITLE]"@, title);
    reveal_strlit("[MESSAGE]");
    lemma_replace_exact("[MESSAGE]"@, Seq::empty());
    lemma_numbers_leave_plain_text(Seq::empty(), m);
}

/// `[TITLE]` is filled with the message's title whenever it has one,
/// whatever its text (for a title without placeholders of its own), and with
/// `(no title)` when it has none.
pub proof fn law_title_filled(m: GotifyMessage)
    requires
        forall|x: Seq<char>| opt_text(m.title) == Some(x) ==> !x.contains('['),
    ensures
        rendered("[TITLE]"@, m) == match opt_text(m.title) {
            Some(x) => x,
            None => "(no title)"@,
        },
{
    reveal_strlit("[TITLE]");
    reveal_strlit("[MESSAGE]");
    reveal_strlit("(no title)");
    let title = match opt_text(m.title) { Some(x) => x, None => "(no title)"@ };
    let body = match opt_text(m.message) { Some(x) => x, None => Seq::empty() };
    assert(!title.contains('[')) by {
        if title.contains('[') {
            let k = choose|k: int| 0 <= k < title.len() && title[k] == '[';
            if m.title is None {
                assert("(no title)"@[k] == '[');
            }
        }
    }
    lemma_replace_exact("[TITLE]"@, title);
    assert("[MESSAGE]"@[0] == '[');
    lemma_absent_first_char(title, "[MESSAGE]"@);
    law_replace_absent(title, "[MESSAGE]"@, body);
    lemma_numbers_leave_plain_text(title, m);
}

/// A placeholder: `[` only at its start and `]` only at its end.
pub open spec fn bracketed(p: Seq<char>) -> bool {
    &&& p.len() >= 2
    &&& p[0] == '['
    &&& p.last() == ']'
    &&& forall|j: int| 0 < j < p.len() ==> #[trigger] p[j] != '['
    &&& forall|j: int| 0 <= j < p.len() - 1 ==> #[trigger] p[j] != ']'
}

proof fn lemma_placeholders_bracketed()
    ensures
        bracketed("[TITLE]"@),
        bracketed("[MESSAGE]"@),
{
    reveal_strlit("[TITLE]");
    reveal_strlit("[MESSAGE]");
}

proof fn lemma_plain_concat(a: Seq<char>, b: Seq<char>)
    requires
        !a.contains('['),
        !b.contains('['),
    ensures
        !(a + b).contains('['),
{
    if (a + b).contains('[') {
        let k = choose|k: int| 0 <= k < (a + b).len() && (a + b)[k] == '[';
        if k < a.len() {
            assert(a[k] == '[');
        } else {
            assert(b[k - a.len()] == '[');
        }
    }
}

/// Replacing placeholder `pat` in plain text around a placeholder `p`
/// replaces it in `p` alone.
proof fn lemma_replace_around(a: Seq<char>, p: Seq<char>, b: Seq<char>, pat: Seq<char>, rep: Seq<char>)
    requires
        bracketed(p),
        bracketed(pat),
        !a.contains('['),
        !b.contains('['),
    ensures
        replace_all(a + p + b, pat, rep) == a + replace_all(p, pat, rep) + b,
{
    assert((a + p).last() == p.last());
    lemma_no_straddle_after(a + p, b, pat);
    lemma_replace_split(a + p, b, pat, rep);
    lemma_no_straddle_before(a, p, pat);
    lemma_replace_split(a, p, pat, rep);
    lemma_absent_first_char(a, pat);
    law_replace_absent(a, pat, rep);
    lemma_absent_first_char(b, pat);
    law_replace_absent(b, pat, rep);
}

/// In any template made of plain text around one `[MESSAGE]`, the placeholder
/// becomes the message's text whenever the message has one, whatever its
/// title, and the text around it stays (for a text without placeholders of
/// its own).
pub proof fn law_message_filled_in_template(a: Seq<char>, b: Seq<char>, m: GotifyMessage, text: Seq<char>)
    requires
        opt_text(m.message) == Some(text),
        !a.contains('['),
        !b.contains('['),
        !text.contains('['),
    ensures
        rendered(a + "[MESSAGE]"@ + b, m) == a + text + b,
{
    let title = match opt_text(m.title) { Some(x) => x, None => "(no title)"@ };
    lemma_placeholders_bracketed();
    lemma_replace_around(a, "[MESSAGE]"@, b, "[TITLE]"@, title);
    lemma_title_not_in_message_placeholder();
    law_replace_absent("[MESSAGE]"@, "[TITLE]"@, title);
    lemma_replace_around(a, "[MESSAGE]"@, b, "[MESSAGE]"@, text);
    lemma_replace_exact("[MESSAGE]"@, text);
    lemma_plain_concat(a, text);
    lemma_plain_concat(a + text, b);
    lemma_numbers_leave_plain_text(a + text + b, m);
}

/// In any template made of plain text around one `[TITLE]`, the placeholder
/// becomes the message's title whenever it has one, whatever its text, and
/// `(no title)` when it has none (for a title without placeholders of its
/// own).
pub proof fn law_title_filled_in_template(a: Seq<char>, b: Seq<char>, m: GotifyMessage)
    requires
        forall|x: Seq<char>| opt_text(m.title) == Some(x) ==> !x.contains('['),
        !a.contains('['),
        !b.contains('['),
    ensures
        rendered(a + "[TITLE]"@ + b, m) == a + match opt_text(m.title) {
            Some(x) => x,
            None => "(no title)"@,
        } + b,
{
    reveal_strlit("(no title)");
    let title = match opt_text(m.title) { Some(x) => x, None => "(no title)"@ };
    let body = match opt_text(m.message) { Some(x) => x, None => Seq::empty() };
    assert(!title.contains('[')) by {
        if title.contains('[') {
            let k = choose|k: int| 0 <= k < title.len() && title[k] == '[';
            if m.title is None {
                assert("(no title)"@[k] == '[');
            }
        }
    }
    lemma_placeholders_bracketed();
    lemma_replace_around(a, "[TITLE]"@, b, "[TITLE]"@, title);
    lemma_replace_exact("[TITLE]"@, title);
    lemma_plain_concat(a, title);
    lemma_plain_concat(a + title, b);
    let t1 = a + title + b;
    lemma_absent_first_char(t1, "[MESSAGE]"@);
    law_replace_absent(t1, "[MESSAGE]"@, body);
    lemma_numbers_leave_plain_text(t1, m);
}

/// Decimal text holds no `[`.
proof fn lemma_int_text_plain(i: int)
    ensures
        !int_text(i).contains('['),
{
    let n: nat = if i < 0 { (-i) as nat } else { i as nat };
    law_decimal_reads_back(n);
    let d = decimal_of(i);
    if int_text(i).contains('[') {
        let k = choose|k: int| 0 <= k < int_text(i).len() && int_text(i)[k] == '[';
        if i < 0 {
            if k > 0 {
                assert(int_text(i)[k] == d[k - 1]);
                assert('0' <= d[k - 1] <= '9');
            }
        } else {
            assert('0' <= d[k] <= '9');
        }
    }
}

spec fn decimal_of(i: int) -> Seq<char> {
    crate::text::decimal(if i < 0 { (-i) as nat } else { i as nat })
}

/// One placeholder does not occur inside another.
proof fn lemma_placeholder_not_in_other(p: Seq<char>, pat: Seq<char>)
    requires
        bracketed(p),
        bracketed(pat),
        p != pat,
    ensures
        !occurs_in(p, pat),
{
    if occurs_in(p, pat) {
        let i = choose|i: int| 0 <= i && i + pat.len() <= p.len() && #[trigger] p.subrange(i, i + pat.len()) == pat;
        assert(p.subrange(i, i + pat.len())[0] == p[i]);
        assert(i == 0);
        let e = pat.len() - 1;
        assert(p.subrange(i, i + pat.len())[e] == p[e]);
        assert(p[e] == ']');
        assert(e == p.len() - 1);
        assert(p =~= p.subrange(0, pat.len() as int));
    }
}

/// What replacing `pat` does to one slot of a template: the slot is the
/// placeholder itself, another placeholder, or plain text.
proof fn lemma_replace_slot_value(s: Seq<char>, pat: Seq<char>, rep: Seq<char>)
    requires
        bracketed(pat),
        bracketed(s) || !s.contains('['),
    ensures
        replace_all(s, pat, rep) == if s == pat { rep } else { s },
{
    if s == pat {
        lemma_replace_exact(pat, rep);
    } else if bracketed(s) {
        lemma_placeholder_not_in_other(s, pat);
        law_replace_absent(s, pat, rep);
    } else {
        lemma_absent_first_char(s, pat);
        law_replace_absent(s, pat, rep);
    }
}

/// Replacing `pat` in plain text `c`, then slot `s`, then the rest `r`.
proof fn lemma_replace_slot(c: Seq<char>, s: Seq<char>, r: Seq<char>, pat: Seq<char>, rep: Seq<char>)
    requires
        bracketed(pat),
        !c.contains('['),
        bracketed(s) || !s.contains('['),
    ensures
        replace_all(c + s + r, pat, rep) == c + replace_all(s, pat, rep) + replace_all(r, pat, rep),
{
    if bracketed(s) {
        assert((c + s).last() == s.last());
        lemma_no_straddle_after(c + s, r, pat);
    } else {
        lemma_plain_concat(c, s);
        lemma_no_straddle_plain(c + s, r, pat);
    }
    lemma_replace_split(c + s, r, pat, rep);
    lemma_no_straddle_plain(c, s, pat);
    lemma_replace_split(c, s, pat, rep);
    lemma_absent_first_char(c, pat);
    law_replace_absent(c, pat, rep);
}

proof fn lemma_no_straddle_plain(x: Seq<char>, y: Seq<char>, pat: Seq<char>)
    requires
        bracketed(pat),
        !x.contains('['),
    ensures
        !crate::text::straddles(x, y, pat),
{
    if crate::text::straddles(x, y, pat) {
        let i = choose|i: int|
            0 <= i < x.len() && x.len() < i + pat.len() <= x.len() + y.len()
                && #[trigger] (x + y).subrange(i, i + pat.len()) == pat;
        assert((x + y).subrange(i, i + pat.len())[0] == x[i]);
    }
}

/// The default template with its five slots filled by `s1` to `s5`.
#[verifier::opaque]
spec fn default_layout(s1: Seq<char>, s2: Seq<char>, s3: Seq<char>, s4: Seq<char>, s5: Seq<char>) -> Seq<char> {
    "### "@ + s1 + ("\n\n"@ + s2 + ("\n\nApp: "@ + s3 + (" • Priority: "@ + s4 + (" • Message ID: "@ + s5 + "\n"@))))
}

spec fn slot_ok(s: Seq<char>) -> bool {
    bracketed(s) || !s.contains('[')
}

spec fn swap_slot(s: Seq<char>, pat: Seq<char>, rep: Seq<char>) -> Seq<char> {
    if s == pat { rep } else { s }
}

proof fn lemma_layout_pieces_plain()
    ensures
        !"### "@.contains('['),
        !"\n\n"@.contains('['),
        !"\n\nApp: "@.contains('['),
        !" • Priority: "@.contains('['),
        !" • Message ID: "@.contains('['),
        !"\n"@.contains('['),
{
    reveal_strlit("### ");
    reveal_strlit("\n\n");
    reveal_strlit("\n\nApp: ");
    reveal_strlit(" • Priority: ");
    reveal_strlit(" • Message ID: ");
    reveal_strlit("\n");
}

/// Replacing a placeholder in the default layout replaces it in each slot.
proof fn lemma_replace_layout(
    s1: Seq<char>,
    s2: Seq<char>,
    s3: Seq<char>,
    s4: Seq<char>,
    s5: Seq<char>,
    pat: Seq<char>,
    rep: Seq<char>,
)
    requires
        bracketed(pat),
        slot_ok(s1),
        slot_ok(s2),
        slot_ok(s3),
        slot_ok(s4),
        slot_ok(s5),
    ensures
        replace_all(default_layout(s1, s2, s3, s4, s5), pat, rep) == default_layout(
            swap_slot(s1, pat, rep),
            swap_slot(s2, pat, rep),
            swap_slot(s3, pat, rep),
            swap_slot(s4, pat, rep),
            swap_slot(s5, pat, rep),
        ),
{
    reveal(default_layout);
    lemma_layout_pieces_plain();
    let tail = "\n"@;
    lemma_absent_first_char(tail, pat);
    law_replace_absent(tail, pat, rep);
    let r4 = " • Message ID: "@ + s5 + tail;
    lemma_replace_slot(" • Message ID: "@, s5, tail, pat, rep);
    lemma_replace_slot_value(s5, pat, rep);
    let r3 = " • Priority: "@ + s4 + r4;
    lemma_replace_slot(" • Priority: "@, s4, r4, pat, rep);
    lemma_replace_slot_value(s4, pat, rep);
    let r2 = "\n\nApp: "@ + s3 + r3;
    lemma_replace_slot("\n\nApp: "@, s3, r3, pat, rep);
    lemma_replace_slot_value(s3, pat, rep);
    let r1 = "\n\n"@ + s2 + r2;
    lemma_replace_slot("\n\n"@, s2, r2, pat, rep);
    lemma_replace_slot_value(s2, pat, rep);
    lemma_replace_slot("### "@, s1, r1, pat, rep);
    lemma_replace_slot_value(s1, pat, rep);
}

/// Every message renders through the default template as a heading with its
/// title (or `(no title)`), a blank line, its text (or nothing), a blank line,
/// and a footer with its application, priority and message numbers; the
/// title and the text are filled in independently of each other (for a title
/// and text without placeholders of their own).
pub proof fn law_default_template_layout(m: GotifyMessage)
    requires
        forall|x: Seq<char>| opt_text(m.title) == Some(x) ==> !x.contains('['),
        forall|x: Seq<char>| opt_text(m.message) == Some(x) ==> !x.contains('['),
    ensures
        rendered(default_template_text(), m) == "### "@ + match opt_text(m.title) {
            Some(x) => x,
            None => "(no title)"@,
        } + "\n\n"@ + match opt_text(m.message) {
            Some(x) => x,
            None => Seq::<char>::empty(),
        } + "\n\nApp: "@ + int_text(m.app_id as int) + " • Priority: "@ + int_text(m.priority as int)
            + " • Message ID: "@ + int_text(m.id as int) + "\n"@,
{
    lemma_default_template_is_layout();
    reveal_strlit("(no title)");
    let p1 = "[TITLE]"@;
    let p2 = "[MESSAGE]"@;
    let p3 = "[APP_ID]"@;
    let p4 = "[PRIORITY]"@;
    let p5 = "[MESSAGE_ID]"@;
    let title = match opt_text(m.title) { Some(x) => x, None => "(no title)"@ };
    let body = match opt_text(m.message) { Some(x) => x, None => Seq::<char>::empty() };
    let app = int_text(m.app_id as int);
    let id = int_text(m.id as int);
    let pri = int_text(m.priority as int);
    assert(!title.contains('[')) by {
        if title.contains('[') {
            let k = choose|k: int| 0 <= k < title.len() && title[k] == '[';
            if m.title is None {
                assert("(no title)"@[k] == '[');
            }
        }
    }
    assert(!body.contains('['));
    lemma_int_text_plain(m.app_id as int);
    lemma_int_text_plain(m.id as int);
    lemma_int_text_plain(m.priority as int);
    lemma_plain_is_no_placeholder(title);
    lemma_plain_is_no_placeholder(body);
    lemma_plain_is_no_placeholder(app);
    lemma_replace_layout(p1, p2, p3, p4, p5, p1, title);
    lemma_replace_layout(title, p2, p3, p4, p5, p2, body);
    lemma_replace_layout(title, body, p3, p4, p5, p3, app);
    lemma_replace_layout(title, body, app, p4, p5, p5, id);
    lemma_replace_layout(title, body, app, p4, id, p4, pri);
    lemma_layout_spelled_out(title, body, app, pri, id);
}

proof fn lemma_layout_spelled_out(s1: Seq<char>, s2: Seq<char>, s3: Seq<char>, s4: Seq<char>, s5: Seq<char>)
    ensures
        default_layout(s1, s2, s3, s4, s5) == "### "@ + s1 + "\n\n"@ + s2 + "\n\nApp: "@ + s3 + " • Priority: "@ + s4
            + " • Message ID: "@ + s5 + "\n"@,
{
    reveal(default_layout);
    assert(default_layout(s1, s2, s3, s4, s5) =~= "### "@ + s1 + "\n\n"@ + s2 + "\n\nApp: "@ + s3 + " • Priority: "@
        + s4 + " • Message ID: "@ + s5 + "\n"@);
}

/// The default template is its layout with the five placeholders in its
/// slots, and those placeholders are pairwise distinct.
proof fn lemma_default_template_is_layout()
    ensures
        default_template_text() == default_layout(
            "[TITLE]"@,
            "[MESSAGE]"@,
            "[APP_ID]"@,
            "[PRIORITY]"@,
            "[MESSAGE_ID]"@,
        ),
        bracketed("[TITLE]"@),
        bracketed("[MESSAGE]"@),
        bracketed("[APP_ID]"@),
        bracketed("[PRIORITY]"@),
        bracketed("[MESSAGE_ID]"@),
        "[TITLE]"@ != "[MESSAGE]"@,
        "[TITLE]"@ != "[APP_ID]"@,
        "[TITLE]"@ != "[PRIORITY]"@,
        "[TITLE]"@ != "[MESSAGE_ID]"@,
        "[MESSAGE]"@ != "[APP_ID]"@,
        "[MESSAGE]"@ != "[PRIORITY]"@,
        "[MESSAGE]"@ != "[MESSAGE_ID]"@,
        "[APP_ID]"@ != "[PRIORITY]"@,
        "[APP_ID]"@ != "[MESSAGE_ID]"@,
        "[PRIORITY]"@ != "[MESSAGE_ID]"@,
{
    reveal_strlit("### [TITLE]\n\n[MESSAGE]\n\nApp: [APP_ID] • Priority: [PRIORITY] • Message ID: [MESSAGE_ID]\n");
    reveal_strlit("### ");
    reveal_strlit("\n\n");
    reveal_strlit("\n\nApp: ");
    reveal_strlit(" • Priority: ");
    reveal_strlit(" • Message ID: ");
    reveal_strlit("\n");
    reveal_strlit("[TITLE]");
    reveal_strlit("[MESSAGE]");
    reveal_strlit("[APP_ID]");
    reveal_strlit("[MESSAGE_ID]");
    reveal_strlit("[PRIORITY]");
    reveal(default_layout);
    assert(default_template_text() =~= default_layout(
        "[TITLE]"@,
        "[MESSAGE]"@,
        "[APP_ID]"@,
        "[PRIORITY]"@,
        "[MESSAGE_ID]"@,
    ));
}

/// Text without `[` is none of the placeholders.
proof fn lemma_plain_is_no_placeholder(x: Seq<char>)
    requires
        !x.contains('['),
    ensures
        x != "[TITLE]"@,
        x != "[MESSAGE]"@,
        x != "[APP_ID]"@,
        x != "[PRIORITY]"@,
        x != "[MESSAGE_ID]"@,
{
    reveal_strlit("[TITLE]");
    reveal_strlit("[MESSAGE]");
    reveal_strlit("[APP_ID]");
    reveal_strlit("[MESSAGE_ID]");
    reveal_strlit("[PRIORITY]");
    if x == "[TITLE]"@ || x == "[MESSAGE]"@ || x == "[APP_ID]"@ || x == "[PRIORITY]"@ || x == "[MESSAGE_ID]"@ {
        assert(x[0] == '[');
    }
}

} // verus!
