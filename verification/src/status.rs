//! The start-up status table: one row per configured room, telling which
//! configuration entry names it, for which applications, and whether the
//! bridge has joined it.
use vstd::prelude::*;
use vstd::utf8::{encode_utf8, is_ascii_chars, is_ascii_chars_encode_utf8};
use crate::config::{opt_text, stream_views, Config, StreamView};
use crate::text::{append_repeat, decimal, i64_text, int_text, repeat, u64_text};

verus! {

/// A row of the status table before the room's membership is known.
#[derive(Clone, Debug)]
pub struct StatusEntry {
    pub source: String,
    pub apps: String,
    pub room: String,
}

/// What a status entry holds, as values.
pub struct EntryView {
    pub source: Seq<char>,
    pub apps: Seq<char>,
    pub room: Seq<char>,
}

impl View for StatusEntry {
    type V = EntryView;

    open spec fn view(&self) -> EntryView {
        EntryView { source: self.source@, apps: self.apps@, room: self.room@ }
    }
}

/// The views of a sequence of status entries.
pub open spec fn entry_views(v: Seq<StatusEntry>) -> Seq<EntryView> {
    v.map_values(|e: StatusEntry| e@)
}

/// A row of the status table, as values.
pub struct RowView {
    pub source: Seq<char>,
    pub apps: Seq<char>,
    pub room: Seq<char>,
    pub status: Seq<char>,
}

/// The name a stream goes by: its own name, or `stream` and its position
/// counted from 1.
pub open spec fn stream_source(name: Option<Seq<char>>, idx: nat) -> Seq<char> {
    match name {
        Some(n) => n,
        None => "stream"@ + decimal(idx + 1),
    }
}

/// Application identifiers in decimal, separated by commas.
pub open spec fn joined_ids(apps: Seq<i64>) -> Seq<char>
    decreases apps.len(),
{
    if apps.len() == 0 {
        Seq::empty()
    } else if apps.len() == 1 {
        int_text(apps[0] as int)
    } else {
        joined_ids(apps.drop_last()) + ","@ + int_text(apps.last() as int)
    }
}

/// The entries of the stream at position `idx`: one per room.
pub open spec fn stream_entries(s: StreamView, idx: nat) -> Seq<EntryView> {
    s.rooms.map_values(
        |r: Seq<char>| EntryView { source: stream_source(s.name, idx), apps: joined_ids(s.apps), room: r },
    )
}

/// The entries of all streams, stream by stream.
pub open spec fn streams_entries(streams: Seq<StreamView>) -> Seq<EntryView>
    decreases streams.len(),
{
    if streams.len() == 0 {
        Seq::empty()
    } else {
        streams_entries(streams.drop_last()) + stream_entries(streams.last(), (streams.len() - 1) as nat)
    }
}

/// The entries of the status table: the default room first, if configured,
/// then the rooms of every stream.
pub open spec fn status_entries_of(default_room: Option<Seq<char>>, streams: Seq<StreamView>) -> Seq<EntryView> {
    let head = match default_room {
        Some(r) => seq![EntryView { source: "default"@, apps: "-"@, room: r }],
        None => Seq::empty(),
    };
    head + streams_entries(streams)
}

/// The word that reports a room's membership.
pub open spec fn status_word(joined: bool) -> Seq<char> {
    if joined {
        "joined"@
    } else {
        "not joined"@
    }
}

/// The rows of the table: each entry with its membership word.
pub open spec fn status_rows(entries: Seq<EntryView>, joined: Seq<bool>) -> Seq<RowView> {
    Seq::new(
        entries.len(),
        |i: int|
            RowView {
                source: entries[i].source,
                apps: entries[i].apps,
                room: entries[i].room,
                status: status_word(joined[i]),
            },
    )
}

/// The length in bytes of the UTF-8 encoding of `s`.
pub open spec fn byte_len(s: Seq<char>) -> nat {
    encode_utf8(s).len()
}

/// The width of a column: the byte length of the longest of its header and
/// cells.
pub open spec fn column_width(header: Seq<char>, cells: Seq<Seq<char>>) -> nat
    decreases cells.len(),
{
    if cells.len() == 0 {
        byte_len(header)
    } else {
        let w = column_width(header, cells.drop_last());
        let c = byte_len(cells.last());
        if c > w {
            c
        } else {
            w
        }
    }
}

/// The widths of the four columns.
pub struct Widths {
    pub source: nat,
    pub apps: nat,
    pub room: nat,
    pub status: nat,
}

/// The column widths of a table with rows `rows`.
pub open spec fn table_widths(rows: Seq<RowView>) -> Widths {
    Widths {
        source: column_width("Source"@, rows.map_values(|r: RowView| r.source)),
        apps: column_width("Apps"@, rows.map_values(|r: RowView| r.apps)),
        room: column_width("Room"@, rows.map_values(|r: RowView| r.room)),
        status: column_width("Status"@, rows.map_values(|r: RowView| r.status)),
    }
}

/// `s` followed by spaces up to `w` characters, as `{:<w$}` formats it.
pub open spec fn padded(s: Seq<char>, w: nat) -> Seq<char> {
    if s.len() < w {
        s + repeat(" "@, (w - s.len()) as nat)
    } else {
        s
    }
}

/// The ruled line above and below the header and at the bottom.
pub open spec fn separator_line(w: Widths) -> Seq<char> {
    "+-"@ + repeat("-"@, w.source) + "-+-"@ + repeat("-"@, w.apps) + "-+-"@ + repeat("-"@, w.room) + "-+-"@
        + repeat("-"@, w.status) + "-+"@
}

/// The line of one row.
pub open spec fn row_line(r: RowView, w: Widths) -> Seq<char> {
    "| "@ + padded(r.source, w.source) + " | "@ + padded(r.apps, w.apps) + " | "@ + padded(r.room, w.room)
        + " | "@ + padded(r.status, w.status) + " |"@
}

/// The header row.
pub open spec fn header_row() -> RowView {
    RowView { source: "Source"@, apps: "Apps"@, room: "Room"@, status: "Status"@ }
}

/// The lines of the table: a rule, the header, a rule, the rows, a rule.
pub open spec fn table_lines(rows: Seq<RowView>) -> Seq<Seq<char>> {
    let w = table_widths(rows);
    seq![separator_line(w), row_line(header_row(), w), separator_line(w)] + rows.map_values(
        |r: RowView| row_line(r, w),
    ) + seq![separator_line(w)]
}


/// Application identifiers in decimal, separated by commas.
pub fn join_app_ids(apps: &Vec<i64>) -> (r: String)
    ensures
        r@ == joined_ids(apps@),
{
    let mut out = String::new();
    let mut i: usize = 0;
    assert(apps@.take(0) =~= Seq::<i64>::empty());
    while i < apps.len()
        invariant
            i <= apps.len(),
            out@ == joined_ids(apps@.take(i as int)),
        decreases apps.len() - i,
    {
        assert(apps@.take(i + 1).drop_last() =~= apps@.take(i as int));
        assert(apps@.take(i + 1).last() == apps@[i as int]);
        let t = i64_text(apps[i]);
        if i > 0 {
            proof {
                reveal_strlit(",");
            }
            out.append(",");
        } else {
            assert(out@ =~= Seq::<char>::empty());
        }
        out.append(t.as_str());
        assert(out@ =~= joined_ids(apps@.take(i + 1)));
        i = i + 1;
    }
    assert(apps@.take(apps.len() as int) =~= apps@);
    out
}

/// The name a stream at position `idx` goes by in the table.
pub fn stream_source_name(name: &Option<String>, idx: usize) -> (r: String)
    requires
        idx < usize::MAX,
    ensures
        r@ == stream_source(opt_text(*name), idx as nat),
{
    match name {
        Some(n) => n.clone(),
        None => {
            let mut out = String::from_str("stream");
            let number = u64_text((idx + 1) as u64);
            out.append(number.as_str());
            out
        },
    }
}

fn push_stream_entries(out: &mut Vec<StatusEntry>, stream: &crate::config::StreamSection, idx: usize)
    requires
        idx < usize::MAX,
    ensures
        entry_views(final(out)@) == entry_views(old(out)@) + stream_entries(stream@, idx as nat),
{
    let source = stream_source_name(&stream.name, idx);
    let apps = join_app_ids(&stream.apps);
    let ghost se = stream_entries(stream@, idx as nat);
    let mut k: usize = 0;
    while k < stream.rooms.len()
        invariant
            k <= stream.rooms.len(),
            se == stream_entries(stream@, idx as nat),
            se.len() == stream.rooms.len(),
            source@ == stream_source(stream@.name, idx as nat),
            apps@ == joined_ids(stream@.apps),
            entry_views(out@) == entry_views(old(out)@) + se.take(k as int),
        decreases stream.rooms.len() - k,
    {
        let ghost prev = out@;
        let e = StatusEntry { source: source.clone(), apps: apps.clone(), room: stream.rooms[k].clone() };
        assert(e@ == se[k as int]);
        out.push(e);
        assert forall|j: int| 0 <= j < prev.len() implies #[trigger] entry_views(out@)[j] == entry_views(prev)[j] by {
            assert(out@[j] == prev[j]);
        }
        assert(entry_views(out@) =~= entry_views(prev).push(se[k as int]));
        assert(entry_views(old(out)@) + se.take(k + 1) =~= (entry_views(old(out)@) + se.take(k as int)).push(se[k as int]));
        k = k + 1;
    }
    assert(se.take(stream.rooms.len() as int) =~= se);
}

impl Config {
    /// The entries of the status table: the default room first, if
    /// configured, then the rooms of every stream, stream by stream.
    pub fn status_entries(&self) -> (r: Vec<StatusEntry>)
        ensures
            entry_views(r@) == status_entries_of(opt_text(self.matrix_room), stream_views(self.streams@)),
    {
        let mut out: Vec<StatusEntry> = Vec::new();
        let ghost head = match opt_text(self.matrix_room) {
            Some(r) => seq![EntryView { source: "default"@, apps: "-"@, room: r }],
            None => Seq::<EntryView>::empty(),
        };
        match &self.matrix_room {
            Some(room) => {
                out.push(StatusEntry { source: String::from_str("default"), apps: String::from_str("-"), room: room.clone() });
                assert(entry_views(out@) =~= head);
            },
            None => {
                assert(entry_views(out@) =~= head);
            },
        }
        let ghost views = stream_views(self.streams@);
        assert(entry_views(out@) =~= head + streams_entries(views.take(0)));
        let mut i: usize = 0;
        while i < self.streams.len()
            invariant
                views == stream_views(self.streams@),
                i <= self.streams.len(),
                entry_views(out@) == head + streams_entries(views.take(i as int)),
            decreases self.streams.len() - i,
        {
            assert(views.take(i + 1).drop_last() =~= views.take(i as int));
            assert(views.take(i + 1).last() == self.streams@[i as int]@);
            push_stream_entries(&mut out, &self.streams[i], i);
            assert(entry_views(out@) =~= head + streams_entries(views.take(i + 1)));
            i = i + 1;
        }
        assert(views.take(self.streams.len() as int) =~= views);
        out
    }
}


/// The word that reports a room's membership.
pub fn status_string(joined: bool) -> (r: String)
    ensures
        r@ == status_word(joined),
{
    if joined {
        String::from_str("joined")
    } else {
        String::from_str("not joined")
    }
}

/// `s` followed by spaces up to `w` characters.
pub fn pad_right(s: &str, w: usize) -> (r: String)
    ensures
        r@ == padded(s@, w as nat),
{
    let n = s.unicode_len();
    let mut out = String::from_str(s);
    if n < w {
        append_repeat(&mut out, " ", w - n);
    }
    out
}

struct ColumnWidths {
    source: usize,
    apps: usize,
    room: usize,
    status: usize,
}

impl ColumnWidths {
    spec fn as_widths(&self) -> Widths {
        Widths { source: self.source as nat, apps: self.apps as nat, room: self.room as nat, status: self.status as nat }
    }
}

fn widen(w: usize, cell: &str) -> (r: usize)
    ensures
        r == if byte_len(cell@) > w { byte_len(cell@) } else { w as nat },
{
    let c = cell.as_bytes().len();
    if c > w {
        c
    } else {
        w
    }
}

fn separator(w: &ColumnWidths) -> (r: String)
    ensures
        r@ == separator_line(w.as_widths()),
{
    let mut out = String::from_str("+-");
    append_repeat(&mut out, "-", w.source);
    out.append("-+-");
    append_repeat(&mut out, "-", w.apps);
    out.append("-+-");
    append_repeat(&mut out, "-", w.room);
    out.append("-+-");
    append_repeat(&mut out, "-", w.status);
    out.append("-+");
    out
}

fn table_row(source: &str, apps: &str, room: &str, status: &str, w: &ColumnWidths) -> (r: String)
    ensures
        r@ == row_line(RowView { source: source@, apps: apps@, room: room@, status: status@ }, w.as_widths()),
{
    let mut out = String::from_str("| ");
    out.append(pad_right(source, w.source).as_str());
    out.append(" | ");
    out.append(pad_right(apps, w.apps).as_str());
    out.append(" | ");
    out.append(pad_right(room, w.room).as_str());
    out.append(" | ");
    out.append(pad_right(status, w.status).as_str());
    out.append(" |");
    out
}

/// The lines of the status table for `entries`, where `joined[i]` tells
/// whether the bridge has joined the room of `entries[i]`: a rule, the
/// header, a rule, one line per entry, and a closing rule, every column as
/// wide as its longest cell in bytes.
pub fn status_table(entries: &Vec<StatusEntry>, joined: &Vec<bool>) -> (r: Vec<String>)
    requires
        entries.len() == joined.len(),
    ensures
        crate::unique::texts(r@) == table_lines(status_rows(entry_views(entries@), joined@)),
{
    let ghost rows = status_rows(entry_views(entries@), joined@);
    let ghost sources = rows.map_values(|r: RowView| r.source);
    let ghost appss = rows.map_values(|r: RowView| r.apps);
    let ghost rooms = rows.map_values(|r: RowView| r.room);
    let ghost statuses = rows.map_values(|r: RowView| r.status);
    let n = entries.len();
    let mut w = ColumnWidths {
        source: "Source".as_bytes().len(),
        apps: "Apps".as_bytes().len(),
        room: "Room".as_bytes().len(),
        status: "Status".as_bytes().len(),
    };
    let mut i: usize = 0;
    while i < n
        invariant
            n == entries.len(),
            n == joined.len(),
            rows == status_rows(entry_views(entries@), joined@),
            sources == rows.map_values(|r: RowView| r.source),
            appss == rows.map_values(|r: RowView| r.apps),
            rooms == rows.map_values(|r: RowView| r.room),
            statuses == rows.map_values(|r: RowView| r.status),
            i <= n,
            w.source == column_width("Source"@, sources.take(i as int)),
            w.apps == column_width("Apps"@, appss.take(i as int)),
            w.room == column_width("Room"@, rooms.take(i as int)),
            w.status == column_width("Status"@, statuses.take(i as int)),
        decreases n - i,
    {
        let e = &entries[i];
        assert(entry_views(entries@)[i as int] == e@);
        let st = status_string(joined[i]);
        assert(sources.take(i + 1).drop_last() =~= sources.take(i as int));
        assert(appss.take(i + 1).drop_last() =~= appss.take(i as int));
        assert(rooms.take(i + 1).drop_last() =~= rooms.take(i as int));
        assert(statuses.take(i + 1).drop_last() =~= statuses.take(i as int));
        assert(sources.take(i + 1).last() == e.source@);
        assert(appss.take(i + 1).last() == e.apps@);
        assert(rooms.take(i + 1).last() == e.room@);
        assert(statuses.take(i + 1).last() == st@);
        w.source = widen(w.source, e.source.as_str());
        w.apps = widen(w.apps, e.apps.as_str());
        w.room = widen(w.room, e.room.as_str());
        w.status = widen(w.status, st.as_str());
        i = i + 1;
    }
    assert(sources.take(n as int) =~= sources);
    assert(appss.take(n as int) =~= appss);
    assert(rooms.take(n as int) =~= rooms);
    assert(statuses.take(n as int) =~= statuses);
    assert(w.as_widths() == table_widths(rows));
    let sep = separator(&w);
    let mut lines: Vec<String> = Vec::new();
    lines.push(sep.clone());
    lines.push(table_row("Source", "Apps", "Room", "Status", &w));
    lines.push(sep.clone());
    let ghost ww = table_widths(rows);
    let ghost body = rows.map_values(|r: RowView| row_line(r, ww));
    let ghost head = seq![separator_line(ww), row_line(header_row(), ww), separator_line(ww)];
    assert(crate::unique::texts(lines@) =~= head);
    let mut k: usize = 0;
    while k < n
        invariant
            n == entries.len(),
            n == joined.len(),
            rows == status_rows(entry_views(entries@), joined@),
            ww == table_widths(rows),
            w.as_widths() == ww,
            body == rows.map_values(|r: RowView| row_line(r, ww)),
            sep@ == separator_line(ww),
            k <= n,
            crate::unique::texts(lines@) == head + body.take(k as int),
        decreases n - k,
    {
        let e = &entries[k];
        assert(entry_views(entries@)[k as int] == e@);
        let st = status_string(joined[k]);
        let line = table_row(e.source.as_str(), e.apps.as_str(), e.room.as_str(), st.as_str(), &w);
        assert(line@ == body[k as int]);
        let ghost prev = lines@;
        lines.push(line);
        assert forall|j: int| 0 <= j < prev.len() implies #[trigger] crate::unique::texts(lines@)[j]
            == crate::unique::texts(prev)[j] by {
            assert(lines@[j] == prev[j]);
        }
        assert(crate::unique::texts(lines@) =~= crate::unique::texts(prev).push(body[k as int]));
        assert(head + body.take(k + 1) =~= (head + body.take(k as int)).push(body[k as int]));
        k = k + 1;
    }
    assert(body.take(n as int) =~= body);
    let ghost prev = lines@;
    lines.push(sep);
    assert forall|j: int| 0 <= j < prev.len() implies #[trigger] crate::unique::texts(lines@)[j]
        == crate::unique::texts(prev)[j] by {
        assert(lines@[j] == prev[j]);
    }
    assert(crate::unique::texts(lines@) =~= table_lines(rows));
    lines
}


proof fn lemma_repeat_len(unit: Seq<char>, n: nat)
    ensures
        repeat(unit, n).len() == n * unit.len(),
    decreases n,
{
    if n > 0 {
        lemma_repeat_len(unit, (n - 1) as nat);
        assert(n * unit.len() == (n - 1) * unit.len() + unit.len()) by (nonlinear_arith);
    } else {
        assert(0 * unit.len() == 0) by (nonlinear_arith);
    }
}

proof fn lemma_column_width_bounds(header: Seq<char>, cells: Seq<Seq<char>>)
    ensures
        column_width(header, cells) >= byte_len(header),
        forall|i: int| 0 <= i < cells.len() ==> column_width(header, cells) >= byte_len(#[trigger] cells[i]),
    decreases cells.len(),
{
    if cells.len() > 0 {
        lemma_column_width_bounds(header, cells.drop_last());
        assert forall|i: int| 0 <= i < cells.len() implies column_width(header, cells) >= byte_len(#[trigger] cells[i]) by {
            if i < cells.len() - 1 {
                assert(cells.drop_last()[i] == cells[i]);
            }
        }
    }
}

proof fn lemma_padded_len(s: Seq<char>, w: nat)
    requires
        s.len() <= w,
    ensures
        padded(s, w).len() == w,
{
    reveal_strlit(" ");
    lemma_repeat_len(" "@, (w - s.len()) as nat);
}

/// All cells of `r` are ASCII text.
pub open spec fn ascii_row(r: RowView) -> bool {
    is_ascii_chars(r.source) && is_ascii_chars(r.apps) && is_ascii_chars(r.room) && is_ascii_chars(r.status)
}

proof fn lemma_ascii_fits(s: Seq<char>, w: nat)
    requires
        is_ascii_chars(s),
        byte_len(s) <= w,
    ensures
        padded(s, w).len() == w,
{
    is_ascii_chars_encode_utf8(s);
    lemma_padded_len(s, w);
}

/// When every cell is ASCII text, the table is aligned: every line, rules
/// included, has the same number of characters.
pub proof fn law_table_aligned(rows: Seq<RowView>)
    requires
        forall|i: int| 0 <= i < rows.len() ==> ascii_row(#[trigger] rows[i]),
    ensures
        forall|i: int| 0 <= i < table_lines(rows).len() ==> (#[trigger] table_lines(rows)[i]).len()
            == table_lines(rows)[0].len(),
{
    let w = table_widths(rows);
    let total = w.source + w.apps + w.room + w.status + 13;
    let sources = rows.map_values(|r: RowView| r.source);
    let appss = rows.map_values(|r: RowView| r.apps);
    let rooms = rows.map_values(|r: RowView| r.room);
    let statuses = rows.map_values(|r: RowView| r.status);
    lemma_column_width_bounds("Source"@, sources);
    lemma_column_width_bounds("Apps"@, appss);
    lemma_column_width_bounds("Room"@, rooms);
    lemma_column_width_bounds("Status"@, statuses);
    reveal_strlit("-");
    reveal_strlit("+-");
    reveal_strlit("-+-");
    reveal_strlit("-+");
    reveal_strlit("| ");
    reveal_strlit(" | ");
    reveal_strlit(" |");
    reveal_strlit("Source");
    reveal_strlit("Apps");
    reveal_strlit("Room");
    reveal_strlit("Status");
    lemma_repeat_len("-"@, w.source);
    lemma_repeat_len("-"@, w.apps);
    lemma_repeat_len("-"@, w.room);
    lemma_repeat_len("-"@, w.status);
    assert(separator_line(w).len() == total);
    assert forall|r: RowView| ascii_row(r) && byte_len(r.source) <= w.source && byte_len(r.apps) <= w.apps
        && byte_len(r.room) <= w.room && byte_len(r.status) <= w.status implies #[trigger] row_line(r, w).len()
        == total by {
        lemma_ascii_fits(r.source, w.source);
        lemma_ascii_fits(r.apps, w.apps);
        lemma_ascii_fits(r.room, w.room);
        lemma_ascii_fits(r.status, w.status);
    }
    assert(is_ascii_chars(header_row().source));
    assert(is_ascii_chars(header_row().apps));
    assert(is_ascii_chars(header_row().room));
    assert(is_ascii_chars(header_row().status));
    assert(row_line(header_row(), w).len() == total);
    let lines = table_lines(rows);
    assert forall|i: int| 0 <= i < lines.len() implies (#[trigger] lines[i]).len() == total by {
        if 3 <= i < 3 + rows.len() {
            let r = rows[i - 3];
            assert(sources[i - 3] == r.source);
            assert(appss[i - 3] == r.apps);
            assert(rooms[i - 3] == r.room);
            assert(statuses[i - 3] == r.status);
            assert(ascii_row(r));
            assert(lines[i] == row_line(r, w));
        }
    }
}

} // verus!
