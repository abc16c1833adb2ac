//! The bridge's configuration: the sections read from the configuration file,
//! their validation, and the settings derived from them.
use vstd::prelude::*;
use crate::text::{has_prefix, replace_all, replace_str, starts_with, trim_end_char, trim_end_matches_char};
use crate::paths::{dedup_paths, path_key, path_key_fn};
use crate::unique::{dedup, dedup_by, dedup_strings, has_key, texts};

verus! {

/// Connection settings for the Gotify server.
#[derive(Clone, Debug)]
pub struct GotifySection {
    pub url: String,
    pub api_token: String,
}

/// Connection settings for the Matrix homeserver.
#[derive(Clone, Debug)]
pub struct MatrixSection {
    pub homeserver_url: String,
    pub matrix_domain: Option<String>,
    pub username: String,
    pub token: String,
    pub room_id: Option<String>,
    pub encrypted: bool,
    pub device_id: String,
    pub store_path: String,
}

/// A routing rule: messages of the listed Gotify applications go to the
/// listed rooms, rendered with the stream's template when it names one.
#[derive(Clone, Debug)]
pub struct StreamSection {
    pub name: Option<String>,
    pub apps: Vec<i64>,
    pub rooms: Vec<String>,
    pub template_path: Option<String>,
}

/// The configuration file as written, before validation.
#[derive(Clone, Debug)]
pub struct RawConfig {
    pub gotify: GotifySection,
    pub matrix: MatrixSection,
    pub streams: Vec<StreamSection>,
    pub debug: bool,
    pub template_path: String,
}

/// The validated configuration the bridge runs with.
#[derive(Clone, Debug)]
pub struct Config {
    pub gotify_url: String,
    pub gotify_token: String,
    pub matrix_homeserver: String,
    pub matrix_domain: String,
    pub matrix_username: String,
    pub matrix_token: String,
    pub matrix_room: Option<String>,
    pub encrypted: bool,
    pub device_id: String,
    pub store_path: String,
    pub streams: Vec<StreamSection>,
    pub debug: bool,
    pub template_path: String,
}

/// Why a configuration could not be loaded.
#[derive(Clone, Debug)]
pub enum ConfigError {
    /// The file could not be read; the text describes the I/O failure.
    Io(String),
    /// The file is not valid YAML for the configuration; the text describes why.
    Yaml(String),
    /// The configuration is well-formed but incomplete.
    Invalid(String),
}

/// The character view of an optional string.
pub open spec fn opt_text(o: Option<String>) -> Option<Seq<char>> {
    match o {
        Some(s) => Some(s@),
        None => None,
    }
}

/// A copy of an optional string.
pub fn clone_opt_text(o: &Option<String>) -> (r: Option<String>)
    ensures
        opt_text(r) == opt_text(*o),
{
    match o {
        Some(s) => Some(s.clone()),
        None => None,
    }
}

/// What a stream section holds, as values.
pub struct StreamView {
    pub name: Option<Seq<char>>,
    pub apps: Seq<i64>,
    pub rooms: Seq<Seq<char>>,
    pub template: Option<Seq<char>>,
}

impl View for StreamSection {
    type V = StreamView;

    open spec fn view(&self) -> StreamView {
        StreamView {
            name: opt_text(self.name),
            apps: self.apps@,
            rooms: texts(self.rooms@),
            template: opt_text(self.template_path),
        }
    }
}

/// The views of a sequence of stream sections.
pub open spec fn stream_views(v: Seq<StreamSection>) -> Seq<StreamView> {
    v.map_values(|s: StreamSection| s@)
}

/// A path that starts at the file-system root.
pub open spec fn is_absolute_path(p: Seq<char>) -> bool {
    p.len() > 0 && p[0] == '/'
}

/// `p` taken relative to the directory `base`: an absolute `p` stands for
/// itself; otherwise it is appended to `base`, with a `/` between them when
/// `base` is not empty and does not already end with one.
pub open spec fn join_path(base: Seq<char>, p: Seq<char>) -> Seq<char> {
    if is_absolute_path(p) || base.len() == 0 {
        p
    } else if base.last() == '/' {
        base + p
    } else {
        base + seq!['/'] + p
    }
}

/// Whether `p` names an absolute path.
pub fn is_absolute(p: &str) -> (r: bool)
    ensures
        r == is_absolute_path(p@),
{
    p.unicode_len() > 0 && p.get_char(0) == '/'
}

/// `p` resolved against the directory `base`, as `Path::join` does on Unix.
pub fn resolve_path(base: &str, p: &str) -> (r: String)
    ensures
        r@ == join_path(base@, p@),
{
    if is_absolute(p) {
        return String::from_str(p);
    }
    let n = base.unicode_len();
    if n == 0 {
        return String::from_str(p);
    }
    let mut out = String::from_str(base);
    if base.get_char(n - 1) != '/' {
        proof {
            reveal_strlit("/");
        }
        out.append("/");
    }
    out.append(p);
    out
}

/// Gotify's HTTP(S) address turned into the matching WebSocket address:
/// `https://` becomes `wss://`, `http://` becomes `ws://`, a WebSocket
/// address stays as it is, and anything else gets `wss://` in front.
pub open spec fn ws_scheme(url: Seq<char>) -> Seq<char> {
    if has_prefix(url, "https://"@) {
        "wss://"@ + url.subrange(8, url.len() as int)
    } else if has_prefix(url, "http://"@) {
        "ws://"@ + url.subrange(7, url.len() as int)
    } else if has_prefix(url, "ws://"@) || has_prefix(url, "wss://"@) {
        url
    } else {
        "wss://"@ + url
    }
}

/// The WebSocket address for a Gotify server address.
pub fn to_ws_scheme(url: &str) -> (r: String)
    ensures
        r@ == ws_scheme(url@),
{
    proof {
        reveal_strlit("https://");
        reveal_strlit("http://");
        reveal_strlit("ws://");
        reveal_strlit("wss://");
    }
    if starts_with(url, "https://") {
        let mut out = String::from_str("wss://");
        out.append(url.substring_char(8, url.unicode_len()));
        out
    } else if starts_with(url, "http://") {
        let mut out = String::from_str("ws://");
        out.append(url.substring_char(7, url.unicode_len()));
        out
    } else if starts_with(url, "ws://") || starts_with(url, "wss://") {
        String::from_str(url)
    } else {
        let mut out = String::from_str("wss://");
        out.append(url);
        out
    }
}


/// The file name used for the message template when the configuration names none.
pub fn default_template_path() -> (r: String)
    ensures
        r@ == "messageTamplate.md"@,
{
    String::from_str("messageTamplate.md")
}

/// The device identifier used when the configuration names none.
pub fn default_device_id() -> (r: String)
    ensures
        r@ == "MGBRIDGE"@,
{
    String::from_str("MGBRIDGE")
}

/// The directory of the Matrix client's store when the configuration names none.
pub fn default_store_path() -> (r: String)
    ensures
        r@ == ".matrix-gotify-bridge-store"@,
{
    String::from_str(".matrix-gotify-bridge-store")
}

/// The first requirement that `raw` fails, as the message that reports it,
/// or `None` when it meets them all.
pub open spec fn config_problem(raw: RawConfig) -> Option<Seq<char>> {
    if raw.gotify.url@.len() == 0 {
        Some("gotify.url is required"@)
    } else if raw.gotify.api_token@.len() == 0 {
        Some("gotify.apiToken is required"@)
    } else if raw.matrix.homeserver_url@.len() == 0 {
        Some("matrix.homeserverURL is required"@)
    } else if raw.matrix.username@.len() == 0 {
        Some("matrix.username is required"@)
    } else if raw.matrix.token@.len() == 0 {
        Some("matrix.token is required"@)
    } else if raw.streams.len() == 0 && raw.matrix.room_id is None {
        Some("Provide matrix.roomID or at least one stream"@)
    } else {
        None
    }
}

/// The Matrix server name: the configured domain, or else the homeserver
/// address with every `https://` and then every `http://` taken out.
pub open spec fn derived_domain(m: MatrixSection) -> Seq<char> {
    match m.matrix_domain {
        Some(d) => d@,
        None => replace_all(replace_all(m.homeserver_url@, "https://"@, Seq::empty()), "http://"@, Seq::empty()),
    }
}

/// A stream whose template path, if any, is taken relative to `base`.
pub open spec fn resolved_stream(base: Seq<char>, s: StreamView) -> StreamView {
    StreamView {
        name: s.name,
        apps: s.apps,
        rooms: s.rooms,
        template: match s.template {
            Some(t) => Some(join_path(base, t)),
            None => None,
        },
    }
}

/// `c` is the configuration that `raw`, read from a file in directory
/// `base`, settles into.
pub open spec fn settled(raw: RawConfig, base: Seq<char>, c: Config) -> bool {
    &&& c.gotify_url@ == ws_scheme(raw.gotify.url@)
    &&& c.gotify_token@ == raw.gotify.api_token@
    &&& c.matrix_homeserver@ == raw.matrix.homeserver_url@
    &&& c.matrix_domain@ == derived_domain(raw.matrix)
    &&& c.matrix_username@ == raw.matrix.username@
    &&& c.matrix_token@ == raw.matrix.token@
    &&& opt_text(c.matrix_room) == opt_text(raw.matrix.room_id)
    &&& c.encrypted == raw.matrix.encrypted
    &&& c.device_id@ == raw.matrix.device_id@
    &&& c.store_path@ == raw.matrix.store_path@
    &&& stream_views(c.streams@) == stream_views(raw.streams@).map_values(
        |s: StreamView| resolved_stream(base, s),
    )
    &&& c.debug == raw.debug
    &&& c.template_path@ == join_path(base, raw.template_path@)
}

fn invalid(msg: &str) -> (e: ConfigError)
    ensures
        e matches ConfigError::Invalid(m) && m@ == msg@,
{
    ConfigError::Invalid(String::from_str(msg))
}

fn resolve_stream(base: &str, s: StreamSection) -> (r: StreamSection)
    ensures
        r@ == resolved_stream(base@, s@),
{
    let template_path = match &s.template_path {
        Some(t) => Some(resolve_path(base, t.as_str())),
        None => None,
    };
    StreamSection { name: s.name, apps: s.apps, rooms: s.rooms, template_path }
}

impl Config {
    /// Validates `raw`, read from a file in the directory `base_dir`, and
    /// derives the configuration from it: the Gotify address in its WebSocket
    /// form, the Matrix domain, and template paths resolved against `base_dir`.
    pub fn from_raw(raw: RawConfig, base_dir: &str) -> (r: Result<Config, ConfigError>)
        ensures
            r is Err <==> config_problem(raw) is Some,
            r matches Err(e) ==> (e matches ConfigError::Invalid(m) && Some(m@) == config_problem(raw)),
            r matches Ok(c) ==> settled(raw, base_dir@, c),
    {
        if raw.gotify.url.as_str().unicode_len() == 0 {
            return Err(invalid("gotify.url is required"));
        }
        if raw.gotify.api_token.as_str().unicode_len() == 0 {
            return Err(invalid("gotify.apiToken is required"));
        }
        if raw.matrix.homeserver_url.as_str().unicode_len() == 0 {
            return Err(invalid("matrix.homeserverURL is required"));
        }
        if raw.matrix.username.as_str().unicode_len() == 0 {
            return Err(invalid("matrix.username is required"));
        }
        if raw.matrix.token.as_str().unicode_len() == 0 {
            return Err(invalid("matrix.token is required"));
        }
        if raw.streams.len() == 0 && raw.matrix.room_id.is_none() {
            return Err(invalid("Provide matrix.roomID or at least one stream"));
        }
        let domain = match &raw.matrix.matrix_domain {
            Some(d) => d.clone(),
            None => {
                proof {
                    reveal_strlit("https://");
                    reveal_strlit("http://");
                    reveal_strlit("");
                    assert(""@ =~= Seq::<char>::empty());
                }
                let without_https = replace_str(raw.matrix.homeserver_url.as_str(), "https://", "");
                replace_str(without_https.as_str(), "http://", "")
            },
        };
        let template_path = resolve_path(base_dir, raw.template_path.as_str());
        let gotify_url = to_ws_scheme(raw.gotify.url.as_str());
        let ghost raw_streams = stream_views(raw.streams@);
        let n = raw.streams.len();
        let mut pending = raw.streams;
        let mut streams: Vec<StreamSection> = Vec::new();
        let mut k: usize = 0;
        while k < n
            invariant
                n == raw_streams.len(),
                k <= n,
                pending.len() == n - k,
                streams.len() == k,
                stream_views(pending@) == raw_streams.subrange(k as int, n as int),
                stream_views(streams@) == raw_streams.take(k as int).map_values(
                    |s: StreamView| resolved_stream(base_dir@, s),
                ),
            decreases n - k,
        {
            let ghost old_pending = pending@;
            let ghost old_streams = streams@;
            assert(stream_views(old_pending)[0] == old_pending[0]@);
            let s = pending.remove(0);
            assert(s@ == raw_streams[k as int]);
            assert forall|j: int| 0 <= j < pending.len() implies #[trigger] stream_views(pending@)[j]
                == raw_streams.subrange(k + 1, n as int)[j] by {
                assert(pending@[j] == old_pending[j + 1]);
                assert(stream_views(old_pending)[j + 1] == old_pending[j + 1]@);
            }
            assert(stream_views(pending@) =~= raw_streams.subrange(k + 1, n as int));
            let r = resolve_stream(base_dir, s);
            streams.push(r);
            assert forall|j: int| 0 <= j < streams.len() implies #[trigger] stream_views(streams@)[j]
                == raw_streams.take(k + 1).map_values(|s: StreamView| resolved_stream(base_dir@, s))[j] by {
                if j < k {
                    assert(streams@[j] == old_streams[j]);
                    assert(stream_views(old_streams)[j] == old_streams[j]@);
                }
            }
            assert(stream_views(streams@) =~= raw_streams.take(k + 1).map_values(
                |s: StreamView| resolved_stream(base_dir@, s),
            ));
            k = k + 1;
        }
        assert(raw_streams.take(n as int) =~= raw_streams);
        Ok(Config {
            gotify_url,
            gotify_token: raw.gotify.api_token,
            matrix_homeserver: raw.matrix.homeserver_url,
            matrix_domain: domain,
            matrix_username: raw.matrix.username,
            matrix_token: raw.matrix.token,
            matrix_room: raw.matrix.room_id,
            encrypted: raw.matrix.encrypted,
            device_id: raw.matrix.device_id,
            store_path: raw.matrix.store_path,
            streams,
            debug: raw.debug,
            template_path,
        })
    }
}


/// The Matrix user identifier `@username:domain`.
pub open spec fn user_id_text(username: Seq<char>, domain: Seq<char>) -> Seq<char> {
    seq!['@'] + username + seq![':'] + domain
}

/// The Gotify stream endpoint: the WebSocket address without trailing
/// slashes, then `/stream?token=` and the token.
pub open spec fn stream_url_text(ws_url: Seq<char>, token: Seq<char>) -> Seq<char> {
    trim_end_char(ws_url, '/') + "/stream?token="@ + token
}

/// The template paths that streams name, in stream order.
pub open spec fn stream_templates(streams: Seq<StreamView>) -> Seq<Seq<char>>
    decreases streams.len(),
{
    if streams.len() == 0 {
        Seq::empty()
    } else {
        stream_templates(streams.drop_last()) + match streams.last().template {
            Some(t) => seq![t],
            None => Seq::empty(),
        }
    }
}

/// The rooms that streams name, stream by stream.
pub open spec fn stream_rooms(streams: Seq<StreamView>) -> Seq<Seq<char>>
    decreases streams.len(),
{
    if streams.len() == 0 {
        Seq::empty()
    } else {
        stream_rooms(streams.drop_last()) + streams.last().rooms
    }
}

/// The optional room as a sequence of zero or one entries.
pub open spec fn opt_seq(o: Option<Seq<char>>) -> Seq<Seq<char>> {
    match o {
        Some(r) => seq![r],
        None => Seq::empty(),
    }
}

fn push_texts(out: &mut Vec<String>, v: &Vec<String>)
    ensures
        texts(final(out)@) == texts(old(out)@) + texts(v@),
{
    let mut i: usize = 0;
    while i < v.len()
        invariant
            i <= v.len(),
            texts(out@) == texts(old(out)@) + texts(v@).take(i as int),
            out.len() == old(out).len() + i,
        decreases v.len() - i,
    {
        let ghost prev = out@;
        out.push(v[i].clone());
        assert forall|j: int| 0 <= j < prev.len() implies #[trigger] texts(out@)[j] == texts(prev)[j] by {
            assert(out@[j] == prev[j]);
        }
        assert(texts(out@) =~= texts(old(out)@) + texts(v@).take(i + 1));
        i = i + 1;
    }
    assert(texts(v@).take(v.len() as int) =~= texts(v@));
}

/// Matrix accepts `s` as a user identifier.
pub uninterp spec fn user_id_accepted(s: Seq<char>) -> bool;

/// Whether `s` parses as `matrix_sdk::ruma::OwnedUserId` (`str::parse`).
/// The answer depends on the text alone and is named `user_id_accepted`;
/// nothing more is claimed of it. The parse does not panic.
#[verifier::external_body]
fn parses_as_user_id(s: &str) -> (r: bool)
    ensures
        r == user_id_accepted(s@),
{
    s.parse::<matrix_sdk::ruma::OwnedUserId>().is_ok()
}

impl Config {
    /// The bridge's Matrix user identifier, `@username:domain`.
    pub fn user_id(&self) -> (r: String)
        ensures
            r@ == user_id_text(self.matrix_username@, self.matrix_domain@),
    {
        proof {
            reveal_strlit("@");
            reveal_strlit(":");
        }
        let mut out = String::from_str("@");
        out.append(self.matrix_username.as_str());
        out.append(":");
        out.append(self.matrix_domain.as_str());
        proof {
            assert(out@ =~= user_id_text(self.matrix_username@, self.matrix_domain@));
        }
        out
    }

    /// The bridge's Matrix user identifier, when Matrix accepts it as one.
    pub fn checked_user_id(&self) -> (r: Option<String>)
        ensures
            match r {
                Some(u) => u@ == user_id_text(self.matrix_username@, self.matrix_domain@) && user_id_accepted(u@),
                None => !user_id_accepted(user_id_text(self.matrix_username@, self.matrix_domain@)),
            },
    {
        let u = self.user_id();
        if parses_as_user_id(u.as_str()) {
            Some(u)
        } else {
            None
        }
    }

    /// The address of Gotify's message stream for this configuration.
    pub fn stream_url(&self) -> (r: String)
        ensures
            r@ == stream_url_text(self.gotify_url@, self.gotify_token@),
    {
        let mut out = trim_end_matches_char(self.gotify_url.as_str(), '/');
        out.append("/stream?token=");
        out.append(self.gotify_token.as_str());
        out
    }

    /// Every template path the configuration uses, the default one first,
    /// each path listed once (paths compare by their parts).
    pub fn template_paths(&self) -> (r: Vec<String>)
        ensures
            texts(r@) == dedup_by(
                seq![self.template_path@] + stream_templates(stream_views(self.streams@)),
                path_key_fn(),
            ),
    {
        let mut all: Vec<String> = Vec::new();
        all.push(self.template_path.clone());
        let ghost views = stream_views(self.streams@);
        let mut i: usize = 0;
        assert(texts(all@) =~= seq![self.template_path@] + stream_templates(views.take(0)));
        while i < self.streams.len()
            invariant
                views == stream_views(self.streams@),
                i <= self.streams.len(),
                texts(all@) == seq![self.template_path@] + stream_templates(views.take(i as int)),
            decreases self.streams.len() - i,
        {
            assert(views.take(i + 1).drop_last() =~= views.take(i as int));
            assert(views[i as int] == self.streams@[i as int]@);
            match &self.streams[i].template_path {
                Some(t) => {
                    assert(views[i as int].template == Some(t@));
                    assert(stream_templates(views.take(i + 1)) == stream_templates(views.take(i as int)) + seq![t@]);
                    let ghost prev = all@;
                    let tc = t.clone();
                    assert(tc@ == t@);
                    all.push(tc);
                    assert(texts(all@)[prev.len() as int] == t@);
                    assert(texts(all@).len() == texts(prev).len() + 1);
                    assert forall|j: int| 0 <= j < prev.len() implies #[trigger] texts(all@)[j] == texts(prev)[j] by {
                        assert(all@[j] == prev[j]);
                    }
                    assert(texts(all@) =~= seq![self.template_path@] + stream_templates(views.take(i + 1)));
                },
                None => {
                    assert(texts(all@) =~= seq![self.template_path@] + stream_templates(views.take(i + 1)));
                },
            }
            i = i + 1;
        }
        assert(views.take(self.streams.len() as int) =~= views);
        dedup_paths(&all)
    }

    /// Every room the configuration names, the default room first, each
    /// listed once.
    pub fn room_targets(&self) -> (r: Vec<String>)
        ensures
            texts(r@) == dedup(opt_seq(opt_text(self.matrix_room)) + stream_rooms(stream_views(self.streams@))),
    {
        let mut all: Vec<String> = Vec::new();
        match &self.matrix_room {
            Some(room) => all.push(room.clone()),
            None => {},
        }
        let ghost head = opt_seq(opt_text(self.matrix_room));
        let ghost views = stream_views(self.streams@);
        assert(texts(all@) =~= head + stream_rooms(views.take(0)));
        let mut i: usize = 0;
        while i < self.streams.len()
            invariant
                views == stream_views(self.streams@),
                head == opt_seq(opt_text(self.matrix_room)),
                i <= self.streams.len(),
                texts(all@) == head + stream_rooms(views.take(i as int)),
            decreases self.streams.len() - i,
        {
            assert(views.take(i + 1).drop_last() =~= views.take(i as int));
            assert(views[i as int] == self.streams@[i as int]@);
            push_texts(&mut all, &self.streams[i].rooms);
            assert(texts(all@) =~= head + stream_rooms(views.take(i + 1)));
            i = i + 1;
        }
        assert(views.take(self.streams.len() as int) =~= views);
        dedup_strings(&all)
    }
}


proof fn lemma_prefix_concat(p: Seq<char>, rest: Seq<char>)
    ensures
        has_prefix(p + rest, p),
{
    assert((p + rest).subrange(0, p.len() as int) =~= p);
}

/// The Gotify address always ends up as a WebSocket address.
pub proof fn law_ws_scheme_is_websocket(url: Seq<char>)
    ensures
        has_prefix(ws_scheme(url), "ws://"@) || has_prefix(ws_scheme(url), "wss://"@),
{
    reveal_strlit("https://");
    reveal_strlit("http://");
    reveal_strlit("ws://");
    reveal_strlit("wss://");
    if has_prefix(url, "https://"@) {
        lemma_prefix_concat("wss://"@, url.subrange(8, url.len() as int));
    } else if has_prefix(url, "http://"@) {
        lemma_prefix_concat("ws://"@, url.subrange(7, url.len() as int));
    } else if has_prefix(url, "ws://"@) || has_prefix(url, "wss://"@) {
    } else {
        lemma_prefix_concat("wss://"@, url);
    }
}

/// Converting an address that is already a WebSocket address changes nothing,
/// so the conversion is idempotent.
pub proof fn law_ws_scheme_idempotent(url: Seq<char>)
    ensures
        ws_scheme(ws_scheme(url)) == ws_scheme(url),
{
    law_ws_scheme_is_websocket(url);
    reveal_strlit("https://");
    reveal_strlit("http://");
    reveal_strlit("ws://");
    reveal_strlit("wss://");
    let w = ws_scheme(url);
    if has_prefix(w, "https://"@) {
        assert(w.subrange(0, 8)[0] == 'h');
        if has_prefix(w, "ws://"@) {
            assert(w.subrange(0, 5)[0] == 'w');
        } else {
            assert(w.subrange(0, 6)[0] == 'w');
        }
    }
    if has_prefix(w, "http://"@) {
        assert(w.subrange(0, 7)[0] == 'h');
        if has_prefix(w, "ws://"@) {
            assert(w.subrange(0, 5)[0] == 'w');
        } else {
            assert(w.subrange(0, 6)[0] == 'w');
        }
    }
}

/// An absolute template path is used as it is, whatever the directory of
/// the configuration file.
pub proof fn law_absolute_path_kept(base: Seq<char>, p: Seq<char>)
    requires
        is_absolute_path(p),
    ensures
        join_path(base, p) == p,
{
}

/// A relative path stays the tail of the path it resolves to: resolution only
/// puts the configuration file's directory in front of it.
pub proof fn law_resolved_path_keeps_relative_tail(base: Seq<char>, p: Seq<char>)
    ensures
        join_path(base, p).len() >= p.len(),
        join_path(base, p).subrange(join_path(base, p).len() - p.len(), join_path(base, p).len() as int) == p,
{
    let j = join_path(base, p);
    assert(j.subrange(j.len() - p.len(), j.len() as int) =~= p);
}

/// Each template path of the configuration is listed exactly once by
/// `template_paths`, and no other path is: no two listed paths name the same
/// path, and a path is named by the list exactly when it is the default
/// template path or a stream's template path.
pub proof fn law_template_paths_exact(c: Config, p: Seq<char>)
    ensures
        forall|i: int, j: int|
            0 <= i < j < dedup_by(seq![c.template_path@] + stream_templates(stream_views(c.streams@)), path_key_fn()).len()
                ==> path_key(#[trigger] dedup_by(seq![c.template_path@] + stream_templates(stream_views(c.streams@)), path_key_fn())[i])
                != path_key(#[trigger] dedup_by(seq![c.template_path@] + stream_templates(stream_views(c.streams@)), path_key_fn())[j]),
        has_key(
            dedup_by(seq![c.template_path@] + stream_templates(stream_views(c.streams@)), path_key_fn()),
            path_key_fn(),
            path_key(p),
        ) <==> (path_key(p) == path_key(c.template_path@) || has_key(
            stream_templates(stream_views(c.streams@)),
            path_key_fn(),
            path_key(p),
        )),
{
    let t = stream_templates(stream_views(c.streams@));
    let all = seq![c.template_path@] + t;
    let f = path_key_fn();
    crate::unique::lemma_dedup_by_distinct(all, f);
    crate::unique::lemma_dedup_by_keys(all, f, path_key(p));
    let d = dedup_by(all, f);
    assert forall|i: int, j: int| 0 <= i < j < d.len() implies path_key(#[trigger] d[i]) != path_key(#[trigger] d[j]) by {
        assert(f(d[i]) != f(d[j]));
    }
    if has_key(all, f, path_key(p)) {
        let k = choose|k: int| 0 <= k < all.len() && f(#[trigger] all[k]) == path_key(p);
        if k > 0 {
            assert(f(t[k - 1]) == path_key(p));
        }
    }
    if path_key(p) == path_key(c.template_path@) {
        assert(f(all[0]) == path_key(p));
    }
    if has_key(t, f, path_key(p)) {
        let k = choose|k: int| 0 <= k < t.len() && f(#[trigger] t[k]) == path_key(p);
        assert(f(all[k + 1]) == path_key(p));
    }
}

/// Each room of the configuration is listed exactly once by `room_targets`,
/// and nothing else is.
pub proof fn law_room_targets_exact(c: Config, room: Seq<char>)
    ensures
        dedup(opt_seq(opt_text(c.matrix_room)) + stream_rooms(stream_views(c.streams@))).no_duplicates(),
        dedup(opt_seq(opt_text(c.matrix_room)) + stream_rooms(stream_views(c.streams@))).contains(room) <==> (
        opt_text(c.matrix_room) == Some(room) || stream_rooms(stream_views(c.streams@)).contains(room)),
{
    let h = opt_seq(opt_text(c.matrix_room));
    let t = stream_rooms(stream_views(c.streams@));
    let all = h + t;
    crate::unique::lemma_dedup_no_duplicates(all);
    crate::unique::lemma_dedup_contains(all, room);
    if all.contains(room) {
        let k = choose|k: int| 0 <= k < all.len() && all[k] == room;
        if k >= h.len() {
            assert(t[k - h.len()] == room);
        }
    }
    if opt_text(c.matrix_room) == Some(room) {
        assert(all[0] == room);
    }
    if t.contains(room) {
        let k = choose|k: int| 0 <= k < t.len() && t[k] == room;
        assert(all[k + h.len()] == room);
    }
}


/// A relative template path from a configuration file in directory `base`
/// is taken inside that directory, whether `base` is absolute or relative:
/// `base`, a `/` (unless `base` already ends with one) and the path. An
/// absolute path, or any path when `base` is empty, is used as written. The
/// same holds of every stream's template.
pub proof fn law_templates_resolved_against_config_dir(raw: RawConfig, base: Seq<char>, c: Config, i: int)
    requires
        settled(raw, base, c),
    ensures
        ({
            let p = raw.template_path@;
            &&& (p.len() > 0 && p[0] == '/') || base.len() == 0 ==> c.template_path@ == p
            &&& !(p.len() > 0 && p[0] == '/') && base.len() > 0 && base[base.len() - 1] == '/'
                ==> c.template_path@ == base + p
            &&& !(p.len() > 0 && p[0] == '/') && base.len() > 0 && base[base.len() - 1] != '/'
                ==> c.template_path@ == base + seq!['/'] + p
        }),
        0 <= i < raw.streams.len() ==> c.streams.len() == raw.streams.len() && match (
            raw.streams@[i]@.template,
            c.streams@[i]@.template,
        ) {
            (None, r) => r is None,
            (Some(t), r) => if (t.len() > 0 && t[0] == '/') || base.len() == 0 {
                r == Some(t)
            } else if base[base.len() - 1] == '/' {
                r == Some(base + t)
            } else {
                r == Some(base + seq!['/'] + t)
            },
        },
{
    if 0 <= i < raw.streams.len() {
        let rv = stream_views(raw.streams@);
        let cv = stream_views(c.streams@);
        assert(cv.len() == rv.len());
        assert(cv[i] == resolved_stream(base, rv[i]));
        assert(rv[i] == raw.streams@[i]@);
        assert(cv[i] == c.streams@[i]@);
    }
}

/// The stream address is the WebSocket address without its trailing `/`s,
/// then `/stream?token=` and the token: an address that does not end with
/// `/` is kept whole, and a trailing `/` makes no difference.
pub proof fn law_stream_url_shape(url: Seq<char>, token: Seq<char>)
    ensures
        !(url.len() > 0 && url.last() == '/') ==> stream_url_text(url, token) == url + "/stream?token="@ + token,
        stream_url_text(url.push('/'), token) == stream_url_text(url, token),
{
    assert(url.push('/').drop_last() =~= url);
}

} // verus!
