use vstd::prelude::*;

use crate::entries::Entry;
use crate::navigator::{NavState, NavView};
use crate::paths::{path_strip_prefix, strip_prefix};
use crate::scroll::MAX_VISIBLE;
use crate::text::push_char;
use vstd::string::StringExecFns;

verus! {

/// One line of the navigator's display.
pub enum Line {
    /// The current directory, with markers for shown hidden entries and files.
    Header { path: String, hidden: bool, files: bool },
    /// The filter text.
    Query(String),
    /// The listing has no entries.
    Empty,
    /// This many entries lie outside the window (above or below it).
    More(usize),
    /// One entry; `selected` when the cursor is on it.
    Item { name: String, is_dir: bool, selected: bool },
    /// A short message shown once.
    Flash(String),
    /// The key help line.
    Footer,
}

/// A line as plain values.
pub enum LineView {
    Header { path: Seq<char>, hidden: bool, files: bool },
    Query(Seq<char>),
    Empty,
    More(usize),
    Item { name: Seq<char>, is_dir: bool, selected: bool },
    Flash(Seq<char>),
    Footer,
}

impl View for Line {
    type V = LineView;

    open spec fn view(&self) -> LineView {
        match self {
            Line::Header { path, hidden, files } => LineView::Header {
                path: path@,
                hidden: *hidden,
                files: *files,
            },
            Line::Query(q) => LineView::Query(q@),
            Line::Empty => LineView::Empty,
            Line::More(n) => LineView::More(*n),
            Line::Item { name, is_dir, selected } => LineView::Item {
                name: name@,
                is_dir: *is_dir,
                selected: *selected,
            },
            Line::Flash(m) => LineView::Flash(m@),
            Line::Footer => LineView::Footer,
        }
    }
}

/// How a piece of a line is drawn.
#[derive(Clone, Copy, PartialEq, Eq, Debug)]
pub enum Style {
    /// The current directory: bold blue.
    Heading,
    /// A setting marker: dark yellow.
    Marker,
    /// Default colours.
    Plain,
    /// Dark grey.
    Dim,
    /// The entry under the cursor: black on white.
    Highlight,
    /// A directory: cyan.
    Directory,
    /// A message: green.
    Message,
}

/// A piece of a line with its style.
pub struct Part {
    pub style: Style,
    pub text: String,
}

/// The character of a decimal digit.
pub open spec fn digit_char(d: int) -> char {
    if d == 0 {
        '0'
    } else if d == 1 {
        '1'
    } else if d == 2 {
        '2'
    } else if d == 3 {
        '3'
    } else if d == 4 {
        '4'
    } else if d == 5 {
        '5'
    } else if d == 6 {
        '6'
    } else if d == 7 {
        '7'
    } else if d == 8 {
        '8'
    } else {
        '9'
    }
}

/// The decimal writing of a number.
pub open spec fn decimal(n: nat) -> Seq<char>
    decreases n,
{
    if n < 10 {
        seq![digit_char(n as int)]
    } else {
        decimal(n / 10).push(digit_char((n % 10) as int))
    }
}

fn digit(d: usize) -> (c: char)
    requires
        d < 10,
    ensures
        c == digit_char(d as int),
{
    match d {
        0 => '0',
        1 => '1',
        2 => '2',
        3 => '3',
        4 => '4',
        5 => '5',
        6 => '6',
        7 => '7',
        8 => '8',
        _ => '9',
    }
}

/// Writes a number in decimal.
pub fn decimal_text(n: usize) -> (r: String)
    ensures
        r@ == decimal(n as nat),
    decreases n,
{
    if n < 10 {
        let mut r = String::new();
        push_char(&mut r, digit(n));
        r
    } else {
        let mut r = decimal_text(n / 10);
        push_char(&mut r, digit(n % 10));
        r
    }
}

/// The text and style of each piece of a line, as drawn on the terminal.
pub open spec fn parts_of(line: LineView) -> Seq<(Style, Seq<char>)> {
    match line {
        LineView::Header { path, hidden, files } => seq![(Style::Heading, "  "@ + path)] + (if hidden {
            seq![(Style::Marker, " [H]"@)]
        } else {
            Seq::empty()
        }) + (if files {
            seq![(Style::Marker, " [F]"@)]
        } else {
            Seq::empty()
        }),
        LineView::Query(q) => seq![(Style::Plain, "  > "@ + q)],
        LineView::Empty => seq![(Style::Dim, "  (empty)"@)],
        LineView::More(n) => seq![(Style::Dim, "  ("@ + decimal(n as nat) + " more)"@)],
        LineView::Item { name, is_dir, selected } => if selected {
            seq![(Style::Highlight, " > "@ + name + (if is_dir { "/"@ } else { ""@ }))]
        } else if is_dir {
            seq![(Style::Directory, "   "@ + name + "/"@)]
        } else {
            seq![(Style::Dim, "   "@ + name)]
        },
        LineView::Flash(m) => seq![(Style::Message, "  "@ + m)],
        LineView::Footer => seq![(Style::Dim, "  enter:cd  tab:here  arrows:navigate  esc:quit"@)],
    }
}

/// The header shows the path first, then the `[H]` marker exactly when hidden
/// entries are shown and the `[F]` marker exactly when files are shown, each
/// setting on its own.
pub proof fn lemma_header_markers(path: Seq<char>, hidden: bool, files: bool)
    ensures
        ({
            let parts = parts_of(LineView::Header { path, hidden, files });
            &&& parts.len() >= 1 && parts[0] == (Style::Heading, "  "@ + path)
            &&& parts.contains((Style::Marker, " [H]"@)) <==> hidden
            &&& parts.contains((Style::Marker, " [F]"@)) <==> files
            &&& parts.len() == 1 + (if hidden { 1int } else { 0 }) + (if files { 1int } else { 0 })
        }),
{
    let parts = parts_of(LineView::Header { path, hidden, files });
    reveal_strlit(" [H]");
    reveal_strlit(" [F]");
    assert(" [H]"@ != " [F]"@) by {
        assert(" [H]"@[2] != " [F]"@[2]);
    }
    if hidden {
        assert(parts[1] == (Style::Marker, " [H]"@));
    }
    if files {
        let k = if hidden { 2int } else { 1int };
        assert(parts[k] == (Style::Marker, " [F]"@));
    }
    if parts.contains((Style::Marker, " [H]"@)) {
        let k = choose|k: int| 0 <= k < parts.len() && parts[k] == (Style::Marker, " [H]"@);
        assert(k != 0);
    }
    if parts.contains((Style::Marker, " [F]"@)) {
        let k = choose|k: int| 0 <= k < parts.len() && parts[k] == (Style::Marker, " [F]"@);
        assert(k != 0);
    }
}

/// The views of a list of parts.
pub open spec fn part_views(parts: Seq<Part>) -> Seq<(Style, Seq<char>)> {
    parts.map_values(|p: Part| (p.style, p.text@))
}

fn part(style: Style, prefix: &str, text: &str, suffix: &str) -> (p: Part)
    ensures
        p.style == style,
        p.text@ == prefix@ + text@ + suffix@,
{
    Part { style, text: prefix.to_owned().concat(text).concat(suffix) }
}

/// The pieces of a line as drawn on the terminal: the header shows the path
/// and a marker for each display setting that is on; an entry is marked
/// with `>` when under the cursor, and a directory name ends in `/`.
pub fn line_parts(line: &Line) -> (parts: Vec<Part>)
    ensures
        part_views(parts@) == parts_of(line@),
{
    let mut parts: Vec<Part> = Vec::new();
    match line {
        Line::Header { path, hidden, files } => {
            parts.push(part(Style::Heading, "  ", path.as_str(), ""));
            if *hidden {
                parts.push(part(Style::Marker, " [H]", "", ""));
            }
            if *files {
                parts.push(part(Style::Marker, " [F]", "", ""));
            }
        },
        Line::Query(q) => {
            parts.push(part(Style::Plain, "  > ", q.as_str(), ""));
        },
        Line::Empty => {
            parts.push(part(Style::Dim, "  (empty)", "", ""));
        },
        Line::More(n) => {
            let digits = decimal_text(*n);
            parts.push(part(Style::Dim, "  (", digits.as_str(), " more)"));
        },
        Line::Item { name, is_dir, selected } => {
            let suffix = if *is_dir { "/" } else { "" };
            if *selected {
                parts.push(part(Style::Highlight, " > ", name.as_str(), suffix));
            } else if *is_dir {
                parts.push(part(Style::Directory, "   ", name.as_str(), "/"));
            } else {
                parts.push(part(Style::Dim, "   ", name.as_str(), ""));
            }
        },
        Line::Flash(m) => {
            parts.push(part(Style::Message, "  ", m.as_str(), ""));
        },
        Line::Footer => {
            parts.push(
                part(Style::Dim, "  enter:cd  tab:here  arrows:navigate  esc:quit", "", ""),
            );
        },
    }
    proof {
        reveal_strlit("");
    }
    assert(part_views(parts@) =~= parts_of(line@));
    parts
}

/// What to draw: move the cursor up `rewind` lines (over the previous frame),
/// write `lines`, then blank `clear` leftover lines of the previous frame.
pub struct Frame {
    pub rewind: usize,
    pub lines: Vec<Line>,
    pub clear: usize,
}

/// The path as displayed: the part under `home` written after `~/`, or the
/// whole path when it is not under `home` (or there is no home directory).
pub open spec fn displayed_path(path: Seq<char>, home: Option<Seq<char>>) -> Seq<char> {
    match home {
        Some(h) => match path_strip_prefix(path, h) {
            Some(rest) => seq!['~', '/'] + rest,
            None => path,
        },
        None => path,
    }
}

/// Formats a path for the header, replacing the home directory with `~`.
pub fn format_path(path: &str, home: Option<&str>) -> (r: String)
    ensures
        r@ == displayed_path(
            path@,
            match home {
                Some(h) => Some(h@),
                None => None,
            },
        ),
{
    match home {
        Some(h) => match strip_prefix(path, h) {
            Some(rest) => {
                let tilde = "~/";
                proof {
                    reveal_strlit("~/");
                }
                let r = tilde.to_owned().concat(rest.as_str());
                assert(r@ =~= seq!['~', '/'] + rest@);
                r
            },
            None => path.to_owned(),
        },
        None => path.to_owned(),
    }
}

/// The last position (exclusive) of the entry window: it starts at
/// `offset` and holds at most `MAX_VISIBLE` entries.
pub open spec fn window_end(offset: int, total: int) -> int {
    let visible = if total < MAX_VISIBLE { total } else { MAX_VISIBLE as int };
    if offset + visible < total { offset + visible } else { total }
}

/// The line for entry `i`.
pub open spec fn item_line(s: NavView, entries: Seq<Entry>, i: int) -> LineView {
    LineView::Item { name: entries[i].name@, is_dir: entries[i].is_dir, selected: i == s.selected }
}

/// The lines of the entries in the window, in order.
pub open spec fn item_lines(s: NavView, entries: Seq<Entry>) -> Seq<LineView> {
    let start = s.scroll_offset as int;
    let end = window_end(start, entries.len() as int);
    if start < end {
        Seq::new((end - start) as nat, |k: int| item_line(s, entries, start + k))
    } else {
        Seq::empty()
    }
}

/// The listing part of the display: `(empty)` for no entries; otherwise a
/// count of entries above the window when it is scrolled, the entries in the
/// window, and a count of the entries below it when there are any.
pub open spec fn body_lines(s: NavView, entries: Seq<Entry>) -> Seq<LineView> {
    let total = entries.len() as int;
    let end = window_end(s.scroll_offset as int, total);
    if total == 0 {
        seq![LineView::Empty]
    } else {
        (if s.scroll_offset > 0 { seq![LineView::More(s.scroll_offset)] } else { Seq::empty() })
            + item_lines(s, entries) + (if end < total {
            seq![LineView::More((total - end) as usize)]
        } else {
            Seq::empty()
        })
    }
}

/// The whole display: header, the filter when it is not empty, the listing,
/// the pending message if any, and the key help.
pub open spec fn frame_lines(
    s: NavView,
    entries: Seq<Entry>,
    home: Option<Seq<char>>,
    flash: Option<Seq<char>>,
) -> Seq<LineView> {
    seq![LineView::Header { path: displayed_path(s.cwd, home), hidden: s.show_hidden, files: s.show_files }]
        + (if s.query.len() > 0 { seq![LineView::Query(s.query)] } else { Seq::empty() })
        + body_lines(s, entries)
        + (match flash {
        Some(m) => seq![LineView::Flash(m)],
        None => Seq::empty(),
    }) + seq![LineView::Footer]
}

/// The views of a list of lines.
pub open spec fn line_views(lines: Seq<Line>) -> Seq<LineView> {
    lines.map_values(|l: Line| l@)
}

/// With the cursor settled in the window, the display shows the entry under
/// the cursor as the only selected item, and never more than `MAX_VISIBLE`
/// entries.
pub proof fn lemma_selection_shown(s: NavView, entries: Seq<Entry>)
    requires
        s.selected < entries.len(),
        entries.len() <= MAX_VISIBLE ==> s.scroll_offset == 0,
        entries.len() > MAX_VISIBLE ==> s.scroll_offset <= s.selected < s.scroll_offset + MAX_VISIBLE,
    ensures
        item_lines(s, entries).len() <= MAX_VISIBLE,
        item_lines(s, entries).contains(item_line(s, entries, s.selected as int)),
        item_line(s, entries, s.selected as int) == (LineView::Item {
            name: entries[s.selected as int].name@,
            is_dir: entries[s.selected as int].is_dir,
            selected: true,
        }),
        forall|k: int|
            0 <= k < item_lines(s, entries).len() && (#[trigger] item_lines(s, entries)[k]) is Item
                && item_lines(s, entries)[k]->Item_selected ==> item_lines(s, entries)[k] == item_line(
                s,
                entries,
                s.selected as int,
            ),
        body_lines(s, entries).contains(item_line(s, entries, s.selected as int)),
{
    let items = item_lines(s, entries);
    let k = s.selected - s.scroll_offset;
    assert(items[k] == item_line(s, entries, s.selected as int));
    let more_above = if s.scroll_offset > 0 { seq![LineView::More(s.scroll_offset)] } else { Seq::<LineView>::empty() };
    let body = body_lines(s, entries);
    assert(body[more_above.len() + k] == items[k]);
}

/// A message set before a frame is shown in that frame; a frame without a
/// pending message shows none.
pub proof fn lemma_flash_shown_once(s: NavView, entries: Seq<Entry>, home: Option<Seq<char>>, msg: Seq<char>)
    ensures
        frame_lines(s, entries, home, Some(msg)).contains(LineView::Flash(msg)),
        forall|k: int|
            0 <= k < frame_lines(s, entries, home, None).len() ==> !(#[trigger] frame_lines(
                s,
                entries,
                home,
                None,
            )[k] is Flash),
{
    let with = frame_lines(s, entries, home, Some(msg));
    assert(with[with.len() - 2] == LineView::Flash(msg));
    let without = frame_lines(s, entries, home, None);
    let head = seq![LineView::Header { path: displayed_path(s.cwd, home), hidden: s.show_hidden, files: s.show_files }]
        + (if s.query.len() > 0 { seq![LineView::Query(s.query)] } else { Seq::empty() });
    let body = body_lines(s, entries);
    assert forall|k: int| 0 <= k < body.len() implies !(#[trigger] body[k] is Flash) by {
        if entries.len() > 0 {
            let above = if s.scroll_offset > 0 { seq![LineView::More(s.scroll_offset)] } else { Seq::<LineView>::empty() };
            let items = item_lines(s, entries);
            if k >= above.len() && k < above.len() + items.len() {
                assert(body[k] == items[k - above.len()]);
            }
        }
    }
    assert(without =~= head + body + seq![LineView::Footer]);
    assert forall|k: int| 0 <= k < without.len() implies !(#[trigger] without[k] is Flash) by {
        if k >= head.len() && k < head.len() + body.len() {
            assert(without[k] == body[k - head.len()]);
        }
    }
}

fn push_line(lines: &mut Vec<Line>, line: Line)
    ensures
        line_views(final(lines)@) == line_views(old(lines)@).push(line@),
{
    lines.push(line);
    assert(line_views(lines@) =~= line_views(old(lines)@).push(line@));
}

fn push_body(lines: &mut Vec<Line>, state: &NavState, entries: &[Entry])
    requires
        state.scroll_offset + MAX_VISIBLE <= usize::MAX || state.scroll_offset + entries@.len()
            <= usize::MAX,
    ensures
        line_views(final(lines)@) == line_views(old(lines)@) + body_lines(state@, entries@),
{
    let ghost start = line_views(lines@);
    let total = entries.len();
    if total == 0 {
        push_line(lines, Line::Empty);
        assert(line_views(lines@) =~= start + body_lines(state@, entries@));
        return;
    }
    let visible = if total < MAX_VISIBLE { total } else { MAX_VISIBLE };
    let end = if state.scroll_offset + visible < total { state.scroll_offset + visible } else { total };
    assert(end == window_end(state.scroll_offset as int, total as int));
    if state.scroll_offset > 0 {
        push_line(lines, Line::More(state.scroll_offset));
    }
    let ghost before_items = line_views(lines@);
    let mut i = state.scroll_offset;
    while i < end
        invariant
            state.scroll_offset <= i,
            i <= end || i == state.scroll_offset,
            end <= total,
            total == entries@.len(),
            end == window_end(state.scroll_offset as int, total as int),
            line_views(lines@) =~= before_items + Seq::new(
                (i - state.scroll_offset) as nat,
                |k: int| item_line(state@, entries@, state.scroll_offset + k),
            ),
        decreases end - i,
    {
        push_line(
            lines,
            Line::Item {
                name: entries[i].name.clone(),
                is_dir: entries[i].is_dir,
                selected: i == state.selected,
            },
        );
        assert(Seq::new(
            (i + 1 - state.scroll_offset) as nat,
            |k: int| item_line(state@, entries@, state.scroll_offset + k),
        ) =~= Seq::new(
            (i - state.scroll_offset) as nat,
            |k: int| item_line(state@, entries@, state.scroll_offset + k),
        ).push(item_line(state@, entries@, i as int)));
        i = i + 1;
    }
    assert(line_views(lines@) =~= before_items + item_lines(state@, entries@));
    if end < total {
        push_line(lines, Line::More(total - end));
    }
    assert(line_views(lines@) =~= start + body_lines(state@, entries@));
}

/// Keeps track of what is on screen between frames: how many lines the last
/// frame drew, and a message waiting to be shown.
pub struct Renderer {
    previous_lines: usize,
    flash: Option<String>,
}

/// The renderer's state as plain values.
pub struct RendererView {
    pub previous_lines: usize,
    pub flash: Option<Seq<char>>,
}

impl View for Renderer {
    type V = RendererView;

    closed spec fn view(&self) -> RendererView {
        RendererView {
            previous_lines: self.previous_lines,
            flash: match self.flash {
                Some(m) => Some(m@),
                None => None,
            },
        }
    }
}

impl Renderer {
    /// A renderer that has drawn nothing yet.
    pub fn new() -> (r: Renderer)
        ensures
            r@ == (RendererView { previous_lines: 0, flash: None }),
    {
        Renderer { previous_lines: 0, flash: None }
    }

    /// Shows `msg` once, in the next frame.
    pub fn set_flash(&mut self, msg: &str)
        ensures
            final(self)@ == (RendererView { flash: Some(msg@), ..old(self)@ }),
    {
        self.flash = Some(msg.to_owned());
    }

    /// Lays out the next frame for `state` with `entries` listed; `home` is
    /// the home directory, if known. The frame moves up over the lines now on
    /// screen, shows the pending message if there is one, and blanks the lines
    /// of the previous frame that it does not cover. Nothing is recorded until
    /// the frame has been drawn (`flash_shown`, `frame_shown`).
    pub fn render(&self, state: &NavState, entries: &[Entry], home: Option<&str>) -> (frame: Frame)
        requires
            state.scroll_offset + MAX_VISIBLE <= usize::MAX || state.scroll_offset + entries@.len()
                <= usize::MAX,
        ensures
            line_views(frame.lines@) == frame_lines(
                state@,
                entries@,
                match home {
                    Some(h) => Some(h@),
                    None => None,
                },
                self@.flash,
            ),
            frame.rewind == self@.previous_lines,
            frame.clear == clear_count(self@.previous_lines, frame.lines@.len()),
    {
        let ghost home_view = match home {
            Some(h) => Some(h@),
            None => None,
        };
        let mut lines: Vec<Line> = Vec::new();
        push_line(
            &mut lines,
            Line::Header {
                path: format_path(state.cwd.as_str(), home),
                hidden: state.show_hidden,
                files: state.show_files,
            },
        );
        if !state.query.as_str().is_empty() {
            push_line(&mut lines, Line::Query(state.query.clone()));
        }
        push_body(&mut lines, state, entries);
        match &self.flash {
            Some(msg) => {
                push_line(&mut lines, Line::Flash(msg.clone()));
            },
            None => {},
        }
        push_line(&mut lines, Line::Footer);
        assert(line_views(lines@) =~= frame_lines(state@, entries@, home_view, self@.flash));
        let rewind = self.previous_lines;
        let count = lines.len();
        let clear = if count < rewind { rewind - count } else { 0 };
        Frame { rewind, lines, clear }
    }

    /// The pending message has been handed to the screen: it is not shown again.
    pub fn flash_shown(&mut self)
        ensures
            final(self)@ == after_flash(old(self)@),
    {
        self.flash = None;
    }

    /// `frame` is on screen in full: the next frame moves up over its lines.
    pub fn frame_shown(&mut self, frame: &Frame)
        ensures
            final(self)@ == after_frame(old(self)@, frame.lines@.len()),
    {
        self.previous_lines = frame.lines.len();
    }

    /// How many lines the last frame drawn left on screen.
    pub fn lines_on_screen(&self) -> (n: usize)
        ensures
            n == self@.previous_lines,
    {
        self.previous_lines
    }

    /// The lines on screen have been blanked: nothing of the navigator is
    /// shown any more.
    pub fn cleanup(&mut self)
        ensures
            final(self)@ == after_cleanup(old(self)@),
    {
        self.previous_lines = 0;
    }
}

/// How many lines of a previous frame of `previous` lines are left below a
/// frame of `count` lines.
pub open spec fn clear_count(previous: usize, count: nat) -> usize {
    if count < previous {
        (previous - count) as usize
    } else {
        0
    }
}

/// The renderer once the pending message has been shown.
pub open spec fn after_flash(r: RendererView) -> RendererView {
    RendererView { flash: None, ..r }
}

/// The renderer once a frame of `count` lines is on screen.
pub open spec fn after_frame(r: RendererView, count: nat) -> RendererView {
    RendererView { previous_lines: count as usize, ..r }
}

/// The renderer once the screen has been cleared.
pub open spec fn after_cleanup(r: RendererView) -> RendererView {
    RendererView { previous_lines: 0, ..r }
}

/// Frames follow each other on screen: once a frame of `count` lines is
/// shown, the next frame moves up over exactly those lines and blanks those
/// it does not cover, so no line of the old frame stays visible.
pub proof fn lemma_frames_chain(r: RendererView, count: nat, next_count: nat)
    requires
        count <= usize::MAX,
    ensures
        after_frame(r, count).previous_lines == count,
        next_count + clear_count(after_frame(r, count).previous_lines, next_count) >= count,
        after_frame(r, count).flash == r.flash,
{
}

/// A message set on the renderer is in the next frame, and once that frame's
/// message has been shown (`flash_shown`) the frame after it has no message,
/// whatever it lists.
pub proof fn lemma_flash_once_per_frame(
    r: RendererView,
    msg: Seq<char>,
    s1: NavView,
    e1: Seq<Entry>,
    s2: NavView,
    e2: Seq<Entry>,
    home: Option<Seq<char>>,
)
    requires
        r.flash == Some(msg),
    ensures
        frame_lines(s1, e1, home, r.flash).contains(LineView::Flash(msg)),
        forall|k: int|
            0 <= k < frame_lines(s2, e2, home, after_flash(r).flash).len() ==> !(#[trigger] frame_lines(
                s2,
                e2,
                home,
                after_flash(r).flash,
            )[k] is Flash),
{
    lemma_flash_shown_once(s1, e1, home, msg);
    lemma_flash_shown_once(s2, e2, home, msg);
}

/// Clearing the screen twice is clearing it once, and the next frame starts
/// as on a new renderer, without moving up.
pub proof fn lemma_cleanup_twice(r: RendererView)
    ensures
        after_cleanup(after_cleanup(r)) == after_cleanup(r),
        after_cleanup(r).previous_lines == 0,
        clear_count(after_cleanup(r).previous_lines, 0) == 0,
{
}

} // verus!
