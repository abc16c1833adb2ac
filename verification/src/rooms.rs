//! Matrix room references: telling room identifiers from aliases, the cache
//! of aliases already resolved, and the Markdown body of a message.
use vstd::prelude::*;

verus! {

/// What kind of room reference a text is.
#[derive(Clone, Copy, Debug, PartialEq, Eq, Structural)]
pub enum RoomRefKind {
    /// A room identifier, `!…`.
    RoomId,
    /// A room alias, `#…`.
    Alias,
    /// Neither.
    Unsupported,
}

/// The kind of the room reference `s`, by its first character.
pub open spec fn room_ref_kind(s: Seq<char>) -> RoomRefKind {
    if s.len() > 0 && s[0] == '!' {
        RoomRefKind::RoomId
    } else if s.len() > 0 && s[0] == '#' {
        RoomRefKind::Alias
    } else {
        RoomRefKind::Unsupported
    }
}

/// The kind of the room reference `s`.
pub fn classify_room_ref(s: &str) -> (r: RoomRefKind)
    ensures
        r == room_ref_kind(s@),
{
    if s.unicode_len() == 0 {
        RoomRefKind::Unsupported
    } else {
        let c = s.get_char(0);
        if c == '!' {
            RoomRefKind::RoomId
        } else if c == '#' {
            RoomRefKind::Alias
        } else {
            RoomRefKind::Unsupported
        }
    }
}

/// The text of the error for a reference that is neither a room identifier
/// nor an alias.
pub fn unsupported_room_ref_message() -> (r: String)
    ensures
        r@ == "Room must be a room ID (!...) or alias (#...)"@,
{
    String::from_str("Room must be a room ID (!...) or alias (#...)")
}

/// The alias-to-room map that a list of (alias, room) entries stands for:
/// a later entry for an alias overrides an earlier one.
pub open spec fn entries_map(es: Seq<(String, String)>) -> Map<Seq<char>, Seq<char>>
    decreases es.len(),
{
    if es.len() == 0 {
        Map::empty()
    } else {
        entries_map(es.drop_last()).insert(es.last().0@, es.last().1@)
    }
}

/// The room that cache contents `m` give for `alias`, if any.
pub open spec fn cached_room(m: Map<Seq<char>, Seq<char>>, alias: Seq<char>) -> Option<Seq<char>> {
    if m.contains_key(alias) {
        Some(m[alias])
    } else {
        None
    }
}

/// Room identifiers of the aliases resolved so far.
#[derive(Clone, Debug)]
pub struct AliasCache {
    entries: Vec<(String, String)>,
}

impl View for AliasCache {
    type V = Map<Seq<char>, Seq<char>>;

    closed spec fn view(&self) -> Map<Seq<char>, Seq<char>> {
        entries_map(self.entries@)
    }
}

proof fn lemma_last_entry_value(es: Seq<(String, String)>, i: int)
    requires
        0 <= i < es.len(),
        forall|j: int| i < j < es.len() ==> es[j].0@ != es[i].0@,
    ensures
        entries_map(es).contains_key(es[i].0@),
        entries_map(es)[es[i].0@] == es[i].1@,
    decreases es.len(),
{
    if i < es.len() - 1 {
        lemma_last_entry_value(es.drop_last(), i);
    }
}

proof fn lemma_absent_key(es: Seq<(String, String)>, k: Seq<char>)
    requires
        forall|j: int| 0 <= j < es.len() ==> es[j].0@ != k,
    ensures
        !entries_map(es).contains_key(k),
    decreases es.len(),
{
    if es.len() > 0 {
        lemma_absent_key(es.drop_last(), k);
    }
}

proof fn lemma_update_last_entry(es: Seq<(String, String)>, i: int, e: (String, String))
    requires
        0 <= i < es.len(),
        e.0@ == es[i].0@,
        forall|j: int| i < j < es.len() ==> es[j].0@ != es[i].0@,
    ensures
        entries_map(es.update(i, e)) == entries_map(es).insert(e.0@, e.1@),
    decreases es.len(),
{
    let u = es.update(i, e);
    if i == es.len() - 1 {
        assert(u.drop_last() =~= es.drop_last());
        assert(entries_map(u) =~= entries_map(es).insert(e.0@, e.1@));
    } else {
        assert(u.drop_last() =~= es.drop_last().update(i, e));
        lemma_update_last_entry(es.drop_last(), i, e);
        assert(entries_map(u) =~= entries_map(es).insert(e.0@, e.1@));
    }
}

impl AliasCache {
    /// A cache that knows no alias.
    pub fn new() -> (r: Self)
        ensures
            r@ == Map::<Seq<char>, Seq<char>>::empty(),
    {
        AliasCache { entries: Vec::new() }
    }

    /// Index of the last entry for `alias`, if any.
    fn position(&self, alias: &str) -> (r: Option<usize>)
        ensures
            match r {
                Some(i) => i < self.entries.len() && self.entries@[i as int].0@ == alias@ && forall|j: int|
                    i < j < self.entries.len() ==> self.entries@[j].0@ != alias@,
                None => forall|j: int| 0 <= j < self.entries.len() ==> self.entries@[j].0@ != alias@,
            },
    {
        let key = String::from_str(alias);
        let mut k: usize = self.entries.len();
        while k > 0
            invariant
                k <= self.entries.len(),
                key@ == alias@,
                forall|j: int| k <= j < self.entries.len() ==> self.entries@[j].0@ != alias@,
            decreases k,
        {
            if self.entries[k - 1].0 == key {
                return Some(k - 1);
            }
            k = k - 1;
        }
        None
    }

    /// The room identifier cached for `alias`, if any.
    pub fn get(&self, alias: &str) -> (r: Option<String>)
        ensures
            crate::config::opt_text(r) == cached_room(self@, alias@),
    {
        match self.position(alias) {
            Some(i) => {
                proof {
                    lemma_last_entry_value(self.entries@, i as int);
                }
                Some(self.entries[i].1.clone())
            },
            None => {
                proof {
                    lemma_absent_key(self.entries@, alias@);
                }
                None
            },
        }
    }

    /// Remembers that `alias` resolves to `room_id`.
    pub fn insert(&mut self, alias: String, room_id: String)
        ensures
            final(self)@ == old(self)@.insert(alias@, room_id@),
    {
        match self.position(alias.as_str()) {
            Some(i) => {
                proof {
                    lemma_update_last_entry(self.entries@, i as int, (alias, room_id));
                }
                self.entries.set(i, (alias, room_id));
            },
            None => {
                self.entries.push((alias, room_id));
                assert(self.entries@.drop_last() =~= old(self).entries@);
            },
        }
    }
}

/// Reading an alias from the cache (`get`) after writing it (`insert`) gives
/// back the room written, and a write for one alias leaves what every other
/// alias reads unchanged.
pub proof fn law_cache_read_after_write(cache: AliasCache, alias: Seq<char>, room: Seq<char>, other: Seq<char>)
    ensures
        cached_room(cache@.insert(alias, room), alias) == Some(room),
        other != alias ==> cached_room(cache@.insert(alias, room), other) == cached_room(cache@, other),
{
}

/// Matrix accepts `s` as a room alias.
pub uninterp spec fn room_alias_accepted(s: Seq<char>) -> bool;

/// Whether `s` parses as `matrix_sdk::ruma::OwnedRoomId` (`str::parse`).
/// ruma checks a room identifier by its leading `!` and, unless its feature
/// `compat-arbitrary-length-ids` is on, by a length of at most 255 bytes;
/// matrix-sdk turns that feature on, so the parse succeeds exactly when the
/// text starts with `!`. The parse does not panic.
#[verifier::external_body]
fn parses_as_room_id(s: &str) -> (r: bool)
    ensures
        r == (s@.len() > 0 && s@[0] == '!'),
{
    s.parse::<matrix_sdk::ruma::OwnedRoomId>().is_ok()
}

/// Whether `s` parses as `matrix_sdk::ruma::OwnedRoomAliasId` (`str::parse`).
/// The answer depends on the text alone and is named `room_alias_accepted`;
/// nothing more is claimed of it.
#[verifier::external_body]
fn parses_as_room_alias(s: &str) -> (r: bool)
    ensures
        r == room_alias_accepted(s@),
{
    s.parse::<matrix_sdk::ruma::OwnedRoomAliasId>().is_ok()
}

/// `s` is a well-formed reference of its kind: any text starting with `!`
/// is a room identifier, and an alias must be one Matrix accepts.
pub open spec fn reference_accepted(s: Seq<char>) -> bool {
    match room_ref_kind(s) {
        RoomRefKind::RoomId => true,
        RoomRefKind::Alias => room_alias_accepted(s),
        RoomRefKind::Unsupported => false,
    }
}

/// Whether `s` is a well-formed room identifier or room alias.
pub fn reference_is_valid(s: &str) -> (r: bool)
    ensures
        r == reference_accepted(s@),
{
    match classify_room_ref(s) {
        RoomRefKind::RoomId => parses_as_room_id(s),
        RoomRefKind::Alias => parses_as_room_alias(s),
        RoomRefKind::Unsupported => false,
    }
}

/// Where to look for a joined room named by a reference.
#[derive(Clone, Debug)]
pub enum RoomLookup {
    /// Look up the room with this identifier.
    RoomId(String),
    /// The reference is this alias; `cached` is the room it was last
    /// resolved to, if it has been resolved.
    Alias { alias: String, cached: Option<String> },
    /// The reference starts with `#` but does not parse as an alias.
    MalformedAlias,
    /// The reference is neither an identifier nor an alias.
    Unsupported,
}

/// How to find the joined room named by `input`: a room identifier is
/// looked up as it is; an alias only through the room it was last resolved
/// to (an alias never resolved has no joined room); an alias that does not
/// parse is malformed.
pub fn room_lookup(input: &str, cache: &AliasCache) -> (r: RoomLookup)
    ensures
        match room_ref_kind(input@) {
            RoomRefKind::Unsupported => r is Unsupported,
            kind => if !reference_accepted(input@) {
                r is MalformedAlias
            } else if kind == RoomRefKind::RoomId {
                r matches RoomLookup::RoomId(id) && id@ == input@
            } else {
                r matches RoomLookup::Alias { alias, cached } && alias@ == input@
                    && crate::config::opt_text(cached) == cached_room(cache@, input@)
            },
        },
{
    let kind = classify_room_ref(input);
    if kind == RoomRefKind::Unsupported {
        return RoomLookup::Unsupported;
    }
    if !reference_is_valid(input) {
        return RoomLookup::MalformedAlias;
    }
    if kind == RoomRefKind::RoomId {
        RoomLookup::RoomId(String::from_str(input))
    } else {
        RoomLookup::Alias { alias: String::from_str(input), cached: cache.get(input) }
    }
}

/// The HTML that CommonMark rendering gives for a Markdown text.
pub uninterp spec fn commonmark_html(markdown: Seq<char>) -> Seq<char>;

/// Renders `markdown` to HTML with `pulldown_cmark::Parser::new` (no
/// extensions) and `pulldown_cmark::html::push_html`. The result is a
/// function of the text alone, named `commonmark_html`; nothing more is
/// claimed of it. The parser holds internal `unwrap`s and `unreachable!`s
/// whose safety rests on its own invariants; that no input reaches one is
/// not shown here.
#[verifier::external_body]
fn markdown_to_html(markdown: &str) -> (html: String)
    ensures
        html@ == commonmark_html(markdown@),
{
    let parser = pulldown_cmark::Parser::new(markdown);
    let mut html = String::new();
    pulldown_cmark::html::push_html(&mut html, parser);
    html
}

/// A message body in Markdown together with its HTML rendering.
#[derive(Clone, Debug)]
pub struct MarkdownMessage {
    pub body: String,
    pub html: String,
}

/// The message to send for the Markdown text `text`: the text itself as the
/// plain body, and its HTML rendering.
pub fn markdown_message(text: &str) -> (m: MarkdownMessage)
    ensures
        m.body@ == text@,
        m.html@ == commonmark_html(text@),
{
    MarkdownMessage { body: String::from_str(text), html: markdown_to_html(text) }
}

/// How far the joining of a room has got.
#[derive(Clone, Copy, Debug, PartialEq, Eq, Structural)]
pub enum JoinStage {
    /// Waiting to learn whether the target room is already joined.
    Checking,
    /// Waiting for the alias to resolve.
    Resolving,
    /// Waiting for the join to complete.
    Joining,
    /// Done, successfully or not.
    Finished,
}

/// What the caller is asked to do next.
#[derive(Clone, Debug)]
pub enum JoinAction {
    /// Tell whether the client holds this room as joined.
    CheckJoined(String),
    /// Resolve this alias to a room identifier through the homeserver.
    ResolveAlias(String),
    /// Join the room with this identifier.
    JoinRoom(String),
    /// The room is joined.
    Succeeded,
    /// An outside step failed; its error is the outcome.
    Failed,
    /// The reference starts with `#` but does not parse as an alias.
    MalformedAlias,
    /// The reference is neither a room identifier nor an alias.
    Rejected,
}

/// What happened in the step the caller was asked to do.
#[derive(Clone, Debug)]
pub enum JoinEvent {
    /// Whether the room is already joined.
    JoinedState(bool),
    /// The alias resolves to this room identifier.
    Resolved(String),
    /// The alias could not be resolved.
    ResolveFailed,
    /// The join completed.
    JoinSucceeded,
    /// The join failed.
    JoinFailed,
}

/// An action, as values.
pub enum ActionView {
    CheckJoined(Seq<char>),
    ResolveAlias(Seq<char>),
    JoinRoom(Seq<char>),
    Succeeded,
    Failed,
    MalformedAlias,
    Rejected,
}

/// An event, as values.
pub enum EventView {
    JoinedState(bool),
    Resolved(Seq<char>),
    ResolveFailed,
    JoinSucceeded,
    JoinFailed,
}

impl View for JoinAction {
    type V = ActionView;

    open spec fn view(&self) -> ActionView {
        match self {
            JoinAction::CheckJoined(r) => ActionView::CheckJoined(r@),
            JoinAction::ResolveAlias(a) => ActionView::ResolveAlias(a@),
            JoinAction::JoinRoom(r) => ActionView::JoinRoom(r@),
            JoinAction::Succeeded => ActionView::Succeeded,
            JoinAction::Failed => ActionView::Failed,
            JoinAction::MalformedAlias => ActionView::MalformedAlias,
            JoinAction::Rejected => ActionView::Rejected,
        }
    }
}

impl View for JoinEvent {
    type V = EventView;

    open spec fn view(&self) -> EventView {
        match self {
            JoinEvent::JoinedState(b) => EventView::JoinedState(*b),
            JoinEvent::Resolved(r) => EventView::Resolved(r@),
            JoinEvent::ResolveFailed => EventView::ResolveFailed,
            JoinEvent::JoinSucceeded => EventView::JoinSucceeded,
            JoinEvent::JoinFailed => EventView::JoinFailed,
        }
    }
}

/// The joining of one room reference, driven step by step by its caller.
#[derive(Debug)]
pub struct RoomJoin {
    reference: String,
    kind: RoomRefKind,
    target: Option<String>,
    stage: JoinStage,
}

/// A join in progress, as values.
pub struct JoinView {
    pub reference: Seq<char>,
    pub kind: RoomRefKind,
    pub target: Option<Seq<char>>,
    pub stage: JoinStage,
}

impl View for RoomJoin {
    type V = JoinView;

    closed spec fn view(&self) -> JoinView {
        JoinView {
            reference: self.reference@,
            kind: self.kind,
            target: crate::config::opt_text(self.target),
            stage: self.stage,
        }
    }
}

/// The join and the first action for reference `r`, with alias cache
/// contents `cache`. A reference that is neither an identifier nor an alias
/// is rejected, and an alias that does not parse is malformed, both before
/// any outside step. A room identifier is first checked for
/// membership. An alias is checked through the room it was last resolved
/// to, and resolved when it never was.
pub open spec fn join_start(r: Seq<char>, cache: Map<Seq<char>, Seq<char>>) -> (JoinView, ActionView) {
    let kind = room_ref_kind(r);
    let base = JoinView { reference: r, kind, target: None, stage: JoinStage::Finished };
    if kind == RoomRefKind::Unsupported {
        (base, ActionView::Rejected)
    } else if !reference_accepted(r) {
        (base, ActionView::MalformedAlias)
    } else if kind == RoomRefKind::RoomId {
        (JoinView { target: Some(r), stage: JoinStage::Checking, ..base }, ActionView::CheckJoined(r))
    } else if cache.contains_key(r) {
        (JoinView { target: Some(cache[r]), stage: JoinStage::Checking, ..base }, ActionView::CheckJoined(cache[r]))
    } else {
        (JoinView { stage: JoinStage::Resolving, ..base }, ActionView::ResolveAlias(r))
    }
}

/// `s` finished with outcome `a`.
pub open spec fn finish(s: JoinView, a: ActionView) -> (JoinView, ActionView) {
    (JoinView { stage: JoinStage::Finished, ..s }, a)
}

/// The next join state and action after event `e` in state `s`. A room
/// already joined ends the join; a room identifier not joined yet is joined;
/// an alias whose room is not joined is resolved and the room it resolves
/// to joined. Any failure, or an event the state does not expect, ends the
/// join as failed.
pub open spec fn join_next(s: JoinView, e: EventView) -> (JoinView, ActionView) {
    match (s.stage, e) {
        (JoinStage::Checking, EventView::JoinedState(joined)) => {
            if joined {
                finish(s, ActionView::Succeeded)
            } else if s.kind == RoomRefKind::RoomId {
                (JoinView { stage: JoinStage::Joining, ..s }, ActionView::JoinRoom(s.reference))
            } else {
                (JoinView { stage: JoinStage::Resolving, ..s }, ActionView::ResolveAlias(s.reference))
            }
        },
        (JoinStage::Resolving, EventView::Resolved(id)) => {
            (JoinView { target: Some(id), stage: JoinStage::Joining, ..s }, ActionView::JoinRoom(id))
        },
        (JoinStage::Joining, EventView::JoinSucceeded) => finish(s, ActionView::Succeeded),
        _ => finish(s, ActionView::Failed),
    }
}

/// The alias cache after event `e` in state `s`: a join by alias that
/// succeeds remembers the room the alias resolved to; nothing else changes it.
pub open spec fn cache_next(s: JoinView, e: EventView, cache: Map<Seq<char>, Seq<char>>) -> Map<Seq<char>, Seq<char>> {
    if s.stage == JoinStage::Joining && e == EventView::JoinSucceeded && s.kind == RoomRefKind::Alias
        && s.target is Some {
        cache.insert(s.reference, s.target->0)
    } else {
        cache
    }
}

impl RoomJoin {
    /// Starts joining the room named by `reference`, given the aliases
    /// resolved so far.
    pub fn start(reference: &str, cache: &AliasCache) -> (r: (RoomJoin, JoinAction))
        ensures
            (r.0@, r.1@) == join_start(reference@, cache@),
    {
        let kind = classify_room_ref(reference);
        let finished = RoomJoin { reference: String::from_str(reference), kind, target: None, stage: JoinStage::Finished };
        if kind == RoomRefKind::Unsupported {
            return (finished, JoinAction::Rejected);
        }
        if !reference_is_valid(reference) {
            return (finished, JoinAction::MalformedAlias);
        }
        if kind == RoomRefKind::RoomId {
            let job = RoomJoin {
                reference: String::from_str(reference),
                kind,
                target: Some(String::from_str(reference)),
                stage: JoinStage::Checking,
            };
            return (job, JoinAction::CheckJoined(String::from_str(reference)));
        }
        match cache.get(reference) {
            Some(id) => {
                let job = RoomJoin {
                    reference: String::from_str(reference),
                    kind,
                    target: Some(id.clone()),
                    stage: JoinStage::Checking,
                };
                (job, JoinAction::CheckJoined(id))
            },
            None => {
                let job = RoomJoin { reference: String::from_str(reference), kind, target: None, stage: JoinStage::Resolving };
                (job, JoinAction::ResolveAlias(String::from_str(reference)))
            },
        }
    }

    /// Whether the join has finished.
    pub fn is_finished(&self) -> (r: bool)
        ensures
            r == (self@.stage == JoinStage::Finished),
    {
        self.stage == JoinStage::Finished
    }

    /// Takes in what happened in the last step and gives the next action,
    /// updating the alias cache when a join by alias succeeds.
    pub fn step(&mut self, event: JoinEvent, cache: &mut AliasCache) -> (a: JoinAction)
        ensures
            (final(self)@, a@) == join_next(old(self)@, event@),
            final(cache)@ == cache_next(old(self)@, event@, old(cache)@),
    {
        match (&self.stage, event) {
            (JoinStage::Checking, JoinEvent::JoinedState(joined)) => {
                if joined {
                    self.stage = JoinStage::Finished;
                    JoinAction::Succeeded
                } else if self.kind == RoomRefKind::RoomId {
                    self.stage = JoinStage::Joining;
                    JoinAction::JoinRoom(self.reference.clone())
                } else {
                    self.stage = JoinStage::Resolving;
                    JoinAction::ResolveAlias(self.reference.clone())
                }
            },
            (JoinStage::Resolving, JoinEvent::Resolved(id)) => {
                self.target = Some(id.clone());
                self.stage = JoinStage::Joining;
                JoinAction::JoinRoom(id)
            },
            (JoinStage::Joining, JoinEvent::JoinSucceeded) => {
                if self.kind == RoomRefKind::Alias {
                    match &self.target {
                        Some(id) => cache.insert(self.reference.clone(), id.clone()),
                        None => {},
                    }
                }
                self.stage = JoinStage::Finished;
                JoinAction::Succeeded
            },
            _ => {
                self.stage = JoinStage::Finished;
                JoinAction::Failed
            },
        }
    }
}

/// The position of a stage in the order in which a join passes through them.
pub open spec fn stage_rank(s: JoinStage) -> nat {
    match s {
        JoinStage::Checking => 1,
        JoinStage::Resolving => 2,
        JoinStage::Joining => 3,
        JoinStage::Finished => 4,
    }
}

/// Every step of an unfinished join moves it to a later stage, so a join
/// finishes after at most three outside steps; a finished join stays finished.
pub proof fn law_join_progresses(s: JoinView, e: EventView)
    ensures
        s.stage != JoinStage::Finished ==> stage_rank(join_next(s, e).0.stage) > stage_rank(s.stage),
        s.stage == JoinStage::Finished ==> join_next(s, e).0.stage == JoinStage::Finished,
{
}

/// A reference that is neither a room identifier nor an alias is rejected,
/// and an alias that does not parse is reported malformed, both without any
/// outside step; every reference starting with `!` is a room identifier.
pub proof fn law_bad_reference_stops_at_once(r: Seq<char>, cache: Map<Seq<char>, Seq<char>>)
    requires
        !reference_accepted(r),
    ensures
        join_start(r, cache).0.stage == JoinStage::Finished,
        room_ref_kind(r) == RoomRefKind::Unsupported ==> join_start(r, cache).1 == ActionView::Rejected,
        room_ref_kind(r) != RoomRefKind::Unsupported ==> room_ref_kind(r) == RoomRefKind::Alias
            && join_start(r, cache).1 == ActionView::MalformedAlias,
{
}

/// A room identifier is never resolved as an alias and never changes the
/// alias cache.
pub proof fn law_room_id_never_resolved(s: JoinView, e: EventView, r: Seq<char>, cache: Map<Seq<char>, Seq<char>>)
    requires
        s.kind == RoomRefKind::RoomId,
        room_ref_kind(r) == RoomRefKind::RoomId,
    ensures
        !(join_start(r, cache).1 is ResolveAlias),
        !(join_next(s, e).1 is ResolveAlias),
        cache_next(s, e, cache) == cache,
{
}

/// The cache learns an alias only from a join by that alias that succeeded,
/// and then maps it to the room that was joined.
pub proof fn law_cache_learns_only_joined_aliases(s: JoinView, e: EventView, cache: Map<Seq<char>, Seq<char>>)
    requires
        cache_next(s, e, cache) != cache,
    ensures
        s.kind == RoomRefKind::Alias,
        s.stage == JoinStage::Joining,
        e == EventView::JoinSucceeded,
        join_next(s, e).1 == ActionView::Succeeded,
        cache_next(s, e, cache) == cache.insert(s.reference, s.target->0),
{
}

/// A room already joined is not joined again: when the check reports it
/// joined, the join succeeds at once.
pub proof fn law_joined_room_not_rejoined(s: JoinView)
    requires
        s.stage == JoinStage::Checking,
    ensures
        join_next(s, EventView::JoinedState(true)).1 == ActionView::Succeeded,
{
}


/// Only aliases are ever resolved, and always the alias being joined: the
/// reference itself, never the room it was last resolved to; a join always
/// targets either the room identifier given or the room the alias resolved
/// to.
pub proof fn law_join_hands_out_the_reference(
    s: JoinView,
    e: EventView,
    r: Seq<char>,
    cache: Map<Seq<char>, Seq<char>>,
)
    requires
        s.kind == room_ref_kind(s.reference),
    ensures
        join_start(r, cache).1 matches ActionView::ResolveAlias(a) ==> a == r && r[0] == '#',
        join_next(s, e).1 matches ActionView::ResolveAlias(a) ==> a == s.reference && s.reference[0] == '#'
            || s.kind == RoomRefKind::Unsupported,
        join_next(s, e).1 matches ActionView::JoinRoom(x) ==> (s.stage == JoinStage::Checking && s.kind
            == RoomRefKind::RoomId && x == s.reference) || (s.stage == JoinStage::Resolving && e
            == EventView::Resolved(x)),
        join_start(r, cache).1 matches ActionView::CheckJoined(x) ==> (room_ref_kind(r) == RoomRefKind::RoomId
            && x == r) || (room_ref_kind(r) == RoomRefKind::Alias && cache.contains_key(r) && x == cache[r]),
{
}

} // verus!
