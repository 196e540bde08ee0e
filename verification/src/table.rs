//! Plain-text tables: how wide each column is, how a cell is cut to fit it, and how a row
//! is padded and joined.

use vstd::prelude::*;
use vstd::utf8::{decode_utf8, encode_utf8, is_char_boundary};
use crate::text::{int_text, int_to_string, push_char};
use crate::domain::{Connection, Slot};
use crate::time::{duration_text, format_duration, format_time, time_text};

verus! {

/// A column of a table: its header and how it treats long cells.
#[derive(Clone, Copy, Debug)]
pub enum Column {
    /// As wide as its widest cell.
    Unlimited(&'static str),
    /// As wide as its widest cell, up to a cap; longer cells are cut and end in `…`.
    Limited(&'static str, usize),
    /// Of a fixed width (or its header's); longer cells are cut.
    Static(&'static str, usize),
}

/// How a cell is placed in its column.
#[derive(Clone, Copy, Debug, PartialEq, Eq, Structural)]
pub enum Align {
    Left,
    Right,
    Center,
}

/// The length of a text in bytes, as `str::len` counts it.
pub open spec fn byte_len(s: Seq<char>) -> int {
    (encode_utf8(s).len() as usize) as int
}

/// The larger of two integers.
pub open spec fn max_int(a: int, b: int) -> int {
    if a >= b { a } else { b }
}

/// The smaller of two integers.
pub open spec fn min_int(a: int, b: int) -> int {
    if a <= b { a } else { b }
}

/// The header of a column.
pub open spec fn header_text(c: Column) -> Seq<char> {
    match c {
        Column::Unlimited(h) => h@,
        Column::Limited(h, _) => h@,
        Column::Static(h, _) => h@,
    }
}

/// The width of a column before any cell is seen.
pub open spec fn initial_width_of(c: Column) -> int {
    match c {
        Column::Unlimited(h) => byte_len(h@),
        Column::Limited(h, _) => byte_len(h@),
        Column::Static(h, n) => max_int(byte_len(h@), n as int),
    }
}

/// The width of a column once a cell of `cell_len` bytes is seen.
pub open spec fn fit_width(c: Column, current: int, cell_len: int) -> int {
    match c {
        Column::Unlimited(_) => max_int(current, cell_len),
        Column::Limited(_, cap) => max_int(current, min_int(cell_len, cap as int)),
        Column::Static(_, _) => current,
    }
}

/// Where a cell of `cell_len` bytes is cut, if it is.
pub open spec fn cut_at(c: Column, cell_len: int) -> Option<int> {
    match c {
        Column::Limited(_, cap) => if cell_len > cap {
            Some(if cap >= 1 { cap - 1 } else { 0 })
        } else {
            None
        },
        Column::Static(_, n) => if cell_len > n { Some(n as int) } else { None },
        Column::Unlimited(_) => None,
    }
}

/// A cell as a column shows it: cut to a capped column's width less one byte and ended with
/// `…`, cut to a fixed column's width, or whole.
pub open spec fn rendered(c: Column, cell: Seq<char>) -> Seq<char> {
    match cut_at(c, byte_len(cell)) {
        Some(k) => match c {
            Column::Limited(_, _) => decode_utf8(encode_utf8(cell).take(k)).push('…'),
            _ => decode_utf8(encode_utf8(cell).take(k)),
        },
        None => cell,
    }
}

/// The cut falls between characters (slicing a `str` elsewhere panics).
pub open spec fn cuts_cleanly(c: Column, cell: Seq<char>) -> bool {
    match cut_at(c, byte_len(cell)) {
        Some(k) => is_char_boundary(encode_utf8(cell), k),
        None => true,
    }
}

/// `n` spaces.
pub open spec fn spaces(n: int) -> Seq<char> {
    Seq::new(n as nat, |i: int| ' ')
}

/// A cell padded with spaces to `width` characters, as `format!` pads with `<`, `>` or `^`;
/// a cell as wide or wider is left as it is.
pub open spec fn padded(cell: Seq<char>, width: int, align: Align) -> Seq<char> {
    if cell.len() >= width {
        cell
    } else {
        let pad = width - cell.len();
        match align {
            Align::Left => cell + spaces(pad),
            Align::Right => spaces(pad) + cell,
            Align::Center => spaces(pad / 2) + cell + spaces((pad + 1) / 2),
        }
    }
}

/// Parts joined with two spaces between them.
pub open spec fn joined(parts: Seq<Seq<char>>) -> Seq<char>
    decreases parts.len(),
{
    if parts.len() == 0 {
        Seq::empty()
    } else if parts.len() == 1 {
        parts[0]
    } else {
        joined(parts.drop_last()) + seq![' ', ' '] + parts.last()
    }
}

impl Column {
    /// The column's header.
    pub fn header(&self) -> (h: &'static str)
        ensures
            h@ == header_text(*self),
    {
        match self {
            Column::Unlimited(h) => h,
            Column::Limited(h, _) => h,
            Column::Static(h, _) => h,
        }
    }

    /// The column's width before any cell is seen: its header's length, and at least the
    /// fixed width of a fixed column.
    pub fn initial_width(&self) -> (w: usize)
        ensures
            w == initial_width_of(*self),
    {
        match self {
            Column::Unlimited(h) => h.len(),
            Column::Limited(h, _) => h.len(),
            Column::Static(h, n) => if h.len() >= *n { h.len() } else { *n },
        }
    }

    /// The column's width once `cell` is seen.
    pub fn fit(&self, current: usize, cell: &str) -> (w: usize)
        ensures
            w == fit_width(*self, current as int, byte_len(cell@)),
    {
        let len = cell.len();
        match self {
            Column::Unlimited(_) => if current >= len { current } else { len },
            Column::Limited(_, cap) => {
                let m = if len <= *cap { len } else { *cap };
                if current >= m { current } else { m }
            },
            Column::Static(_, _) => current,
        }
    }

    /// Whether the column can cut `cell` where it has to (between two characters).
    pub fn cuts_cleanly(&self, cell: &str) -> (b: bool)
        ensures
            b == cuts_cleanly(*self, cell@),
    {
        let len = cell.len();
        match self {
            Column::Limited(_, cap) => {
                if len > *cap {
                    let k = if *cap >= 1 { *cap - 1 } else { 0 };
                    return cell.is_char_boundary(k);
                }
            },
            Column::Static(_, n) => {
                if len > *n {
                    return cell.is_char_boundary(*n);
                }
            },
            Column::Unlimited(_) => {},
        }
        true
    }

    /// The cell as the column shows it.
    pub fn render(&self, cell: &str) -> (r: String)
        requires
            cuts_cleanly(*self, cell@),
        ensures
            r@ == rendered(*self, cell@),
    {
        let len = cell.len();
        match self {
            Column::Limited(_, cap) => {
                if len > *cap {
                    let k = if *cap >= 1 { *cap - 1 } else { 0 };
                    let (head, _) = cell.split_at(k);
                    let mut s = head.to_string();
                    proof {
                        vstd::utf8::encode_utf8_decode_utf8(head@);
                        assert(encode_utf8(cell@).take(k as int) =~= encode_utf8(head@));
                    }
                    push_char(&mut s, '…');
                    return s;
                }
            },
            Column::Static(_, n) => {
                if len > *n {
                    let (head, _) = cell.split_at(*n);
                    proof {
                        vstd::utf8::encode_utf8_decode_utf8(head@);
                        assert(encode_utf8(cell@).take(*n as int) =~= encode_utf8(head@));
                    }
                    return head.to_string();
                }
            },
            Column::Unlimited(_) => {},
        }
        cell.to_string()
    }
}

fn push_spaces(s: &mut String, n: usize)
    ensures
        final(s)@ == old(s)@ + spaces(n as int),
{
    let mut i: usize = 0;
    while i < n
        invariant
            i <= n,
            s@ == old(s)@ + spaces(i as int),
        decreases n - i,
    {
        push_char(s, ' ');
        i += 1;
        assert(s@ =~= old(s)@ + spaces(i as int));
    }
}

/// Pads a cell with spaces to `width` characters.
pub fn pad_cell(cell: &str, width: usize, align: Align) -> (r: String)
    ensures
        r@ == padded(cell@, width as int, align),
{
    let len = cell.unicode_len();
    if len >= width {
        return cell.to_string();
    }
    let pad = width - len;
    let mut s = String::new();
    match align {
        Align::Left => {
            s.append(cell);
            push_spaces(&mut s, pad);
        },
        Align::Right => {
            push_spaces(&mut s, pad);
            s.append(cell);
        },
        Align::Center => {
            push_spaces(&mut s, pad / 2);
            s.append(cell);
            push_spaces(&mut s, pad / 2 + pad % 2);
        },
    }
    assert(s@ =~= padded(cell@, width as int, align));
    s
}

/// The views of a row's parts.
pub open spec fn part_views(parts: Seq<String>) -> Seq<Seq<char>> {
    Seq::new(parts.len(), |i: int| parts[i]@)
}

/// Joins the parts of a row with two spaces between them.
pub fn join_row(parts: &Vec<String>) -> (r: String)
    ensures
        r@ == joined(part_views(parts@)),
{
    let mut s = String::new();
    let n = parts.len();
    let mut i: usize = 0;
    while i < n
        invariant
            n == parts@.len(),
            i <= n,
            s@ == joined(part_views(parts@.take(i as int))),
        decreases n - i,
    {
        proof {
            let p = part_views(parts@.take(i + 1));
            assert(p.drop_last() =~= part_views(parts@.take(i as int)));
        }
        if i > 0 {
            s.append("  ");
            proof {
                reveal_strlit("  ");
            }
        }
        s.append(parts[i].as_str());
        i += 1;
        proof {
            let p = part_views(parts@.take(i as int));
            if i == 1 {
                assert(s@ =~= p[0]);
            } else {
                assert(s@ =~= joined(p.drop_last()) + seq![' ', ' '] + p.last());
            }
        }
    }
    assert(parts@.take(n as int) =~= parts@);
    s
}


/// The width of column `col` after the rows' cells in it were seen, in order.
pub open spec fn width_over(c: Column, rows: Seq<Vec<String>>, col: int) -> int
    decreases rows.len(),
{
    if rows.len() == 0 {
        initial_width_of(c)
    } else {
        fit_width(c, width_over(c, rows.drop_last(), col), byte_len(rows.last()@[col]@))
    }
}

/// Every row has one cell per column.
pub open spec fn rows_fit(columns: Seq<Column>, rows: Seq<Vec<String>>) -> bool {
    forall|r: int| 0 <= r < rows.len() ==> (#[trigger] rows[r])@.len() == columns.len()
}

/// The width of each column over all rows.
pub fn column_widths(columns: &Vec<Column>, rows: &Vec<Vec<String>>) -> (w: Vec<usize>)
    requires
        rows_fit(columns@, rows@),
    ensures
        w@.len() == columns@.len(),
        forall|i: int| 0 <= i < columns@.len() ==> #[trigger] w@[i] == width_over(columns@[i], rows@, i),
{
    let mut w: Vec<usize> = Vec::new();
    let m = columns.len();
    let n = rows.len();
    let mut i: usize = 0;
    while i < m
        invariant
            m == columns@.len(),
            n == rows@.len(),
            rows_fit(columns@, rows@),
            i <= m,
            w@.len() == i,
            forall|k: int| 0 <= k < i ==> #[trigger] w@[k] == width_over(columns@[k], rows@, k),
        decreases m - i,
    {
        let c = &columns[i];
        let mut width = c.initial_width();
        let mut r: usize = 0;
        while r < n
            invariant
                m == columns@.len(),
                n == rows@.len(),
                rows_fit(columns@, rows@),
                i < m,
                r <= n,
                *c == columns@[i as int],
                width == width_over(columns@[i as int], rows@.take(r as int), i as int),
            decreases n - r,
        {
            assert(rows@[r as int]@.len() == m);
            width = c.fit(width, rows[r][i].as_str());
            r += 1;
            assert(rows@.take(r as int).drop_last() =~= rows@.take(r - 1));
        }
        assert(rows@.take(n as int) =~= rows@);
        w.push(width);
        i += 1;
    }
    w
}

/// Each cell as its column shows it.
pub fn render_cells(columns: &Vec<Column>, row: &Vec<String>) -> (r: Vec<String>)
    requires
        row@.len() == columns@.len(),
        forall|i: int| 0 <= i < row@.len() ==> cuts_cleanly(columns@[i], #[trigger] row@[i]@),
    ensures
        r@.len() == row@.len(),
        forall|i: int| 0 <= i < row@.len() ==> #[trigger] r@[i]@ == rendered(columns@[i], row@[i]@),
{
    let mut r: Vec<String> = Vec::new();
    let n = row.len();
    let mut i: usize = 0;
    while i < n
        invariant
            n == row@.len(),
            n == columns@.len(),
            forall|k: int| 0 <= k < n ==> cuts_cleanly(columns@[k], #[trigger] row@[k]@),
            i <= n,
            r@.len() == i,
            forall|k: int| 0 <= k < i ==> #[trigger] r@[k]@ == rendered(columns@[k], row@[k]@),
        decreases n - i,
    {
        assert(cuts_cleanly(columns@[i as int], row@[i as int]@));
        r.push(columns[i].render(row[i].as_str()));
        i += 1;
    }
    r
}

/// Each cell padded to its column's width.
pub fn pad_cells(cells: &Vec<String>, widths: &Vec<usize>, aligns: &Vec<Align>) -> (r: Vec<String>)
    requires
        cells@.len() == widths@.len(),
        cells@.len() == aligns@.len(),
    ensures
        r@.len() == cells@.len(),
        forall|i: int| 0 <= i < cells@.len() ==> #[trigger] r@[i]@ == padded(cells@[i]@, widths@[i] as int, aligns@[i]),
{
    let mut r: Vec<String> = Vec::new();
    let n = cells.len();
    let mut i: usize = 0;
    while i < n
        invariant
            n == cells@.len(),
            n == widths@.len(),
            n == aligns@.len(),
            i <= n,
            r@.len() == i,
            forall|k: int| 0 <= k < i ==> #[trigger] r@[k]@ == padded(cells@[k]@, widths@[k] as int, aligns@[k]),
        decreases n - i,
    {
        r.push(pad_cell(cells[i].as_str(), widths[i], aligns[i]));
        i += 1;
    }
    r
}

/// The headers of the columns.
pub fn headers(columns: &Vec<Column>) -> (r: Vec<String>)
    ensures
        r@.len() == columns@.len(),
        forall|i: int| 0 <= i < columns@.len() ==> #[trigger] r@[i]@ == header_text(columns@[i]),
{
    let mut r: Vec<String> = Vec::new();
    let n = columns.len();
    let mut i: usize = 0;
    while i < n
        invariant
            n == columns@.len(),
            i <= n,
            r@.len() == i,
            forall|k: int| 0 <= k < i ==> #[trigger] r@[k]@ == header_text(columns@[k]),
        decreases n - i,
    {
        r.push(columns[i].header().to_string());
        i += 1;
    }
    r
}

/// The columns of the connection list: ID, ACTIVE, NAME (up to 15), KIND, HOST (up to 30),
/// IDENTITY (up to 25) and UPDATED (a date, `2026-05-17`).
pub fn connection_columns() -> (c: Vec<Column>)
    ensures
        c@ == seq![
            Column::Unlimited("ID"),
            Column::Static("ACTIVE", 6),
            Column::Limited("NAME", 15),
            Column::Unlimited("KIND"),
            Column::Limited("HOST", 30),
            Column::Limited("IDENTITY", 25),
            Column::Static("UPDATED", 10),
        ],
{
    let mut c: Vec<Column> = Vec::new();
    c.push(Column::Unlimited("ID"));
    c.push(Column::Static("ACTIVE", 6));
    c.push(Column::Limited("NAME", 15));
    c.push(Column::Unlimited("KIND"));
    c.push(Column::Limited("HOST", 30));
    c.push(Column::Limited("IDENTITY", 25));
    c.push(Column::Static("UPDATED", 10));
    assert(c@ =~= seq![
        Column::Unlimited("ID"),
        Column::Static("ACTIVE", 6),
        Column::Limited("NAME", 15),
        Column::Unlimited("KIND"),
        Column::Limited("HOST", 30),
        Column::Limited("IDENTITY", 25),
        Column::Static("UPDATED", 10),
    ]);
    c
}

/// How the connection list places its cells: the ID to the right, the active mark centred,
/// the rest to the left.
pub fn connection_aligns() -> (a: Vec<Align>)
    ensures
        a@ == seq![Align::Right, Align::Center, Align::Left, Align::Left, Align::Left, Align::Left, Align::Left],
{
    let mut a: Vec<Align> = Vec::new();
    a.push(Align::Right);
    a.push(Align::Center);
    a.push(Align::Left);
    a.push(Align::Left);
    a.push(Align::Left);
    a.push(Align::Left);
    a.push(Align::Left);
    assert(a@ =~= seq![Align::Right, Align::Center, Align::Left, Align::Left, Align::Left, Align::Left, Align::Left]);
    a
}

/// The columns of the slot list: TICKET, SUMMARY (up to 30), NOTE (up to 20), STARTED
/// (`HH:MM`), STOPPED (`running…`) and DURATION (`1h 23m`).
pub fn slot_columns() -> (c: Vec<Column>)
    ensures
        c@ == seq![
            Column::Unlimited("TICKET"),
            Column::Limited("SUMMARY", 30),
            Column::Limited("NOTE", 20),
            Column::Static("STARTED", 5),
            Column::Static("STOPPED", 10),
            Column::Static("DURATION", 6),
        ],
{
    let mut c: Vec<Column> = Vec::new();
    c.push(Column::Unlimited("TICKET"));
    c.push(Column::Limited("SUMMARY", 30));
    c.push(Column::Limited("NOTE", 20));
    c.push(Column::Static("STARTED", 5));
    c.push(Column::Static("STOPPED", 10));
    c.push(Column::Static("DURATION", 6));
    assert(c@ =~= seq![
        Column::Unlimited("TICKET"),
        Column::Limited("SUMMARY", 30),
        Column::Limited("NOTE", 20),
        Column::Static("STARTED", 5),
        Column::Static("STOPPED", 10),
        Column::Static("DURATION", 6),
    ]);
    c
}

/// How the slot list places its cells: the ticket to the right, the rest to the left.
pub fn slot_aligns() -> (a: Vec<Align>)
    ensures
        a@ == seq![Align::Right, Align::Left, Align::Left, Align::Left, Align::Left, Align::Left],
{
    let mut a: Vec<Align> = Vec::new();
    a.push(Align::Right);
    a.push(Align::Left);
    a.push(Align::Left);
    a.push(Align::Left);
    a.push(Align::Left);
    a.push(Align::Left);
    assert(a@ =~= seq![Align::Right, Align::Left, Align::Left, Align::Left, Align::Left, Align::Left]);
    a
}

/// The text of an optional string, empty where there is none.
pub open spec fn opt_text(s: Option<String>) -> Seq<char> {
    match s {
        Some(v) => v@,
        None => Seq::empty(),
    }
}

fn text_or_empty(s: &Option<String>) -> (r: String)
    ensures
        r@ == opt_text(*s),
{
    match s {
        Some(v) => v.clone(),
        None => String::new(),
    }
}

/// The cells of a connection's row: its id, `*` where it is the active one, its name, kind,
/// host and identity, and the date it was updated.
pub fn connection_row(c: &Connection, active: Option<i64>, updated: &str) -> (r: Vec<String>)
    ensures
        r@.len() == 7,
        r@[0]@ == int_text(c.id as int),
        r@[1]@ == (if active == Some(c.id) { seq!['*'] } else { Seq::empty() }),
        r@[2]@ == c.name@,
        r@[3]@ == c.kind@,
        r@[4]@ == c.host@,
        r@[5]@ == c.identity@,
        r@[6]@ == updated@,
{
    let mut r: Vec<String> = Vec::new();
    r.push(int_to_string(c.id));
    let mut mark = String::new();
    if active == Some(c.id) {
        push_char(&mut mark, '*');
    }
    assert(mark@ =~= (if active == Some(c.id) { seq!['*'] } else { Seq::<char>::empty() }));
    r.push(mark);
    r.push(c.name.clone());
    r.push(c.kind.clone());
    r.push(c.host.clone());
    r.push(c.identity.clone());
    r.push(updated.to_string());
    r
}

/// When a slot ended, or `now` while it runs.
pub open spec fn ended_at(s: Slot, now: i64) -> int {
    match s.stopped_at {
        Some(t) => t as int,
        None => now as int,
    }
}

/// The cells of a slot's row, with its start and stop already written as times of day: its
/// ticket, summary and note (empty where missing), start, stop, and how long it ran until it
/// stopped or until `now`.
pub fn slot_row_from(s: &Slot, now: i64, started: String, stopped: String) -> (r: Vec<String>)
    requires
        i64::MIN <= ended_at(*s, now) - s.started_at <= i64::MAX,
    ensures
        r@.len() == 6,
        r@[0]@ == s.ticket_key@,
        r@[1]@ == opt_text(s.summary),
        r@[2]@ == opt_text(s.note),
        r@[3] == started,
        r@[4] == stopped,
        r@[5]@ == duration_text(ended_at(*s, now) - s.started_at),
{
    let ended = match s.stopped_at {
        Some(t) => t,
        None => now,
    };
    let mut r: Vec<String> = Vec::new();
    r.push(s.ticket_key.clone());
    r.push(text_or_empty(&s.summary));
    r.push(text_or_empty(&s.note));
    r.push(started);
    r.push(stopped);
    r.push(format_duration(ended - s.started_at));
    r
}

/// The cells of a slot's row, its start and stop written as times of day in the local time zone
/// (the stop is empty while the slot runs).
pub fn slot_row(s: &Slot, now: i64) -> (r: Vec<String>)
    requires
        i64::MIN <= ended_at(*s, now) - s.started_at <= i64::MAX,
    ensures
        r@.len() == 6,
        r@[0]@ == s.ticket_key@,
        r@[1]@ == opt_text(s.summary),
        r@[2]@ == opt_text(s.note),
        time_text(s.started_at as int, r@[3]@),
        s.stopped_at matches Some(t) ==> time_text(t as int, r@[4]@),
        s.stopped_at is None ==> r@[4]@ == Seq::<char>::empty(),
        r@[5]@ == duration_text(ended_at(*s, now) - s.started_at),
{
    let started = format_time(s.started_at);
    let stopped = match s.stopped_at {
        Some(t) => format_time(t),
        None => String::new(),
    };
    slot_row_from(s, now, started, stopped)
}

} // verus!
