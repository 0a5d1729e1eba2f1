//! The monitor's session: which row is selected, the question being typed, the chat with the
//! model about one process, and how keys and model events change them.

use vstd::prelude::*;
use crate::ai::AiEvent;
use crate::process::{ProcessSnapshot, SnapshotView, ProcessInfo, MacProcessMetrics, Platform};
use crate::refresh::{rows_view, merged};
use crate::row_order::{orderable, sorted_rows};
use crate::sort_mode::{SortMode, spec_next_for};
use crate::table::{ProcessTable, demo_rows, listing_rows};
use crate::text::{chars_of, append_str, append_chars, string_of, push_decimal, decimal, slice_chars};

verus! {

/// The screen shown.
#[derive(Clone, Copy, Debug, PartialEq, Eq, Structural)]
pub enum Screen {
    Monitor,
    Chat,
}

/// A finished question and its answer.
pub struct ChatTurn {
    pub question: String,
    pub answer: String,
}

/// A key press: a character (with whether Control was held), or a named key.
#[derive(Clone, Copy, Debug, PartialEq, Eq, Structural)]
pub enum Key {
    Char { c: char, ctrl: bool },
    Up,
    Down,
    Esc,
    Enter,
    Backspace,
    Other,
}

/// A question for the model about one process.
pub struct AskRequest {
    pub snapshot: ProcessSnapshot,
    pub question: String,
}

/// What a key press asks of the application: to quit, to cancel the running model request,
/// or to start a new one.
pub struct KeyOutcome {
    pub quit: bool,
    pub cancel: bool,
    pub request: Option<AskRequest>,
}

/// The session as mathematical values.
pub struct SessionView {
    pub rows: Seq<ProcessSnapshot>,
    pub demo: bool,
    pub selected: usize,
    pub question: Seq<char>,
    pub answer: Seq<char>,
    pub status: Seq<char>,
    pub busy: bool,
    pub screen: Screen,
    pub chat_process: Option<SnapshotView>,
    pub history: Seq<(Seq<char>, Seq<char>)>,
    pub active_question: Option<Seq<char>>,
    pub chat_scroll: usize,
    pub sort_mode: SortMode,
    pub label: Seq<char>,
}

/// Everything the monitor remembers while it runs.
pub struct Session {
    table: ProcessTable,
    selected: usize,
    question: Vec<char>,
    answer: Vec<char>,
    status: Vec<char>,
    busy: bool,
    screen: Screen,
    chat_process: Option<ProcessSnapshot>,
    chat_history: Vec<ChatTurn>,
    active_question: Option<Vec<char>>,
    chat_scroll: usize,
    sort_mode: SortMode,
    label: Vec<char>,
}

/// The characters of an optional character vector.
pub open spec fn opt_chars(o: Option<Vec<char>>) -> Option<Seq<char>> {
    match o {
        Some(v) => Some(v@),
        None => None,
    }
}

/// The view of an optional snapshot.
pub open spec fn opt_snapshot(o: Option<ProcessSnapshot>) -> Option<SnapshotView> {
    match o {
        Some(p) => Some(p@),
        None => None,
    }
}

/// The turns of a chat as pairs of question and answer.
pub open spec fn turns_view(h: Seq<ChatTurn>) -> Seq<(Seq<char>, Seq<char>)> {
    h.map_values(|t: ChatTurn| (t.question@, t.answer@))
}

impl View for Session {
    type V = SessionView;

    closed spec fn view(&self) -> SessionView {
        SessionView {
            rows: self.table.row_seq(),
            demo: self.table.demo_mode(),
            selected: self.selected,
            question: self.question@,
            answer: self.answer@,
            status: self.status@,
            busy: self.busy,
            screen: self.screen,
            chat_process: opt_snapshot(self.chat_process),
            history: turns_view(self.chat_history@),
            active_question: opt_chars(self.active_question),
            chat_scroll: self.chat_scroll,
            sort_mode: self.sort_mode,
            label: self.label@,
        }
    }
}

/// The status line when the monitor starts.
pub open spec fn welcome_status() -> Seq<char> {
    "AI enabled · press Enter to explain the selected process"@
}

/// The status while the engine connects.
pub open spec fn connecting_status(label: Seq<char>) -> Seq<char> {
    label + " connecting…"@
}

/// The status when an answer is complete.
pub open spec fn complete_status(ttft_ms: u128, tokens: usize) -> Seq<char> {
    "answer complete · TTFT "@ + decimal(ttft_ms as nat) + "ms · "@ + decimal(tokens as nat)
        + " tokens"@
}

/// The status in the chat view.
pub open spec fn chat_status(label: Seq<char>) -> Seq<char> {
    label + " · Esc back to processes"@
}

/// The session after a model event.
pub open spec fn after_event(s: SessionView, e: AiEvent) -> SessionView {
    match e {
        AiEvent::Started => SessionView {
            answer: Seq::empty(),
            status: connecting_status(s.label),
            ..s
        },
        AiEvent::Token(t) => SessionView { answer: s.answer + t@, ..s },
        AiEvent::Finished { ttft_ms, tokens } => match s.active_question {
            Some(q) => SessionView {
                history: s.history.push((q, s.answer)),
                answer: Seq::empty(),
                active_question: None,
                status: complete_status(ttft_ms, tokens),
                ..s
            },
            None => SessionView { status: complete_status(ttft_ms, tokens), ..s },
        },
        AiEvent::Error(m) => SessionView { status: m@, ..s },
    }
}


/// The last row index, or 0 for an empty table.
pub open spec fn last_row(len: nat) -> usize {
    if len == 0 {
        0
    } else {
        (len - 1) as usize
    }
}

/// The rows that Control-D and Control-U move by: half the table, at least ten.
pub open spec fn page_size(len: nat) -> nat {
    if len / 2 > 10 {
        len / 2
    } else {
        10
    }
}

/// `a - b`, or zero.
pub open spec fn sat_sub(a: nat, b: nat) -> usize {
    if a >= b {
        (a - b) as usize
    } else {
        0
    }
}

/// `a + b`, or the largest `usize`.
pub open spec fn sat_add(a: nat, b: nat) -> usize {
    if a + b <= usize::MAX {
        (a + b) as usize
    } else {
        usize::MAX
    }
}

/// The smaller of two indices.
pub open spec fn min_index(a: usize, b: usize) -> usize {
    if a <= b {
        a
    } else {
        b
    }
}

/// Characters that typing adds to the question: visible ASCII and the space.
pub open spec fn is_typed(c: char) -> bool {
    ('!' <= c && c <= '~') || c == ' '
}

/// The question asked when the user typed none.
pub open spec fn default_question() -> Seq<char> {
    "Explain this process and any notable evidence."@
}

/// One finished turn as the model is shown it.
pub open spec fn turn_text(t: (Seq<char>, Seq<char>)) -> Seq<char> {
    "USER: "@ + t.0 + "\nASSISTANT: "@ + t.1
}

/// The finished turns, separated by blank lines.
pub open spec fn turns_text(h: Seq<(Seq<char>, Seq<char>)>) -> Seq<char>
    decreases h.len(),
{
    if h.len() == 0 {
        Seq::empty()
    } else if h.len() == 1 {
        turn_text(h[0])
    } else {
        turns_text(h.drop_last()) + "\n\n"@ + turn_text(h.last())
    }
}

/// What the model is asked: the question alone, or after the conversation so far.
pub open spec fn model_question(h: Seq<(Seq<char>, Seq<char>)>, q: Seq<char>) -> Seq<char> {
    if h.len() == 0 {
        q
    } else {
        "Previous conversation:\n"@ + turns_text(h) + "\n\nUSER: "@ + q
    }
}

/// Asking: nothing happens while a request runs or when no process is chosen; otherwise the
/// typed question (or the default one) becomes the active question, the input is cleared,
/// and a request is made about the chosen process with the conversation so far.
pub open spec fn asked(s: SessionView, t: SessionView, req: Option<AskRequest>) -> bool {
    if s.busy || s.chat_process is None {
        t == s && req is None
    } else {
        let q = if s.question.len() == 0 {
            default_question()
        } else {
            s.question
        };
        &&& t == SessionView {
            question: Seq::empty(),
            active_question: Some(q),
            busy: true,
            ..s
        }
        &&& req matches Some(r) && r.snapshot@ == s.chat_process.unwrap() && r.question@
            == model_question(s.history, q)
    }
}

/// Opening the chat about the selected row, then asking the question typed in the monitor
/// (or the default one); nothing happens when no row is selected.
pub open spec fn opened_chat(s: SessionView, t: SessionView, req: Option<AskRequest>) -> bool {
    if s.selected < s.rows.len() {
        asked(
            SessionView {
                screen: Screen::Chat,
                chat_process: Some(s.rows[s.selected as int]@),
                history: Seq::empty(),
                answer: Seq::empty(),
                chat_scroll: 0,
                status: chat_status(s.label),
                ..s
            },
            t,
            req,
        )
    } else {
        t == s && req is None
    }
}

/// Whether a key press cancels the running model request: quitting does, and so does leaving
/// the chat while an answer is being generated, so that no answer goes on unseen.
pub open spec fn cancels(s: SessionView, key: Key, quit: bool) -> bool {
    quit || (s.screen == Screen::Chat && key == Key::Esc && s.busy)
}

/// Re-sorting the rows in the next mode of `key` and keeping the selection within them.
pub open spec fn resorted(s: SessionView, key: char, t: SessionView) -> bool {
    let mode = spec_next_for(s.sort_mode, key);
    &&& t == SessionView {
        rows: t.rows,
        sort_mode: mode,
        selected: min_index(s.selected, last_row(s.rows.len())),
        ..s
    }
    &&& t.rows.to_multiset() == s.rows.to_multiset()
    &&& (forall|i: int| 0 <= i < s.rows.len() ==> orderable(mode, #[trigger] s.rows[i]@))
        ==> sorted_rows(mode, rows_view(t.rows))
}

/// A key in the process monitor.
pub open spec fn monitor_step(s: SessionView, key: Key, t: SessionView, quit: bool, req: Option<
    AskRequest,
>) -> bool {
    let len = s.rows.len();
    let same = t == s && !quit && req is None;
    let moved = |sel: usize| t == SessionView { selected: sel, ..s } && !quit && req is None;
    match key {
        Key::Esc => t == s && quit && req is None,
        Key::Down => moved(if s.selected + 1 < len { (s.selected + 1) as usize } else { s.selected }),
        Key::Up => moved(sat_sub(s.selected as nat, 1)),
        Key::Enter => !quit && opened_chat(s, t, req),
        Key::Backspace => t == SessionView {
            question: if s.question.len() > 0 { s.question.drop_last() } else { s.question },
            ..s
        } && !quit && req is None,
        Key::Other => same,
        Key::Char { c, ctrl } => if c == 'q' {
            t == s && quit && req is None
        } else if c == 'j' {
            moved(if s.selected + 1 < len { (s.selected + 1) as usize } else { s.selected })
        } else if c == 'k' {
            moved(sat_sub(s.selected as nat, 1))
        } else if c == 'g' {
            moved(0)
        } else if c == 'G' {
            moved(last_row(len))
        } else if c == 'd' && ctrl {
            moved(min_index(sat_add(s.selected as nat, page_size(len)), last_row(len)))
        } else if c == 'u' && ctrl {
            moved(sat_sub(s.selected as nat, page_size(len)))
        } else if c == 'a' {
            !quit && opened_chat(s, t, req)
        } else if c == 'n' || c == 'c' || c == 'm' {
            !quit && req is None && resorted(s, c, t)
        } else if is_typed(c) {
            t == SessionView { question: s.question.push(c), ..s } && !quit && req is None
        } else {
            same
        },
    }
}

/// A key in the chat view. `q` is typed like any other letter; Esc returns to the monitor and
/// drops the chat: the chosen process, the finished turns, the answer and the active question.
pub open spec fn chat_step(s: SessionView, key: Key, t: SessionView, quit: bool, req: Option<
    AskRequest,
>) -> bool {
    !quit && match key {
        Key::Esc => t == SessionView {
            screen: Screen::Monitor,
            chat_process: None,
            history: Seq::empty(),
            answer: Seq::empty(),
            active_question: None,
            ..s
        } && req is None,
        Key::Enter => asked(s, t, req),
        Key::Up => t == SessionView { chat_scroll: sat_add(s.chat_scroll as nat, 1), ..s }
            && req is None,
        Key::Down => t == SessionView { chat_scroll: sat_sub(s.chat_scroll as nat, 1), ..s }
            && req is None,
        Key::Backspace => t == SessionView {
            question: if s.question.len() > 0 { s.question.drop_last() } else { s.question },
            ..s
        } && req is None,
        Key::Char { c, ctrl } => if is_typed(c) {
            t == SessionView { question: s.question.push(c), ..s } && req is None
        } else {
            t == s && req is None
        },
        Key::Other => t == s && req is None,
    }
}

/// The rows after a refresh, re-sorted, with the selection kept within them.
pub open spec fn refreshed(
    s: SessionView,
    t: SessionView,
    listing: Seq<ProcessInfo>,
    metrics: Seq<MacProcessMetrics>,
    platform: Platform,
) -> bool {
    exists|fresh: Seq<ProcessSnapshot>|
        #![trigger fresh.to_multiset()]
        {
            &&& (if s.demo {
                rows_view(fresh) == demo_rows()
            } else {
                merged(rows_view(fresh), rows_view(s.rows), listing_rows(listing, metrics, platform))
            })
            &&& t == SessionView {
                rows: t.rows,
                selected: min_index(s.selected, last_row(fresh.len())),
                ..s
            }
            &&& t.rows.to_multiset() == fresh.to_multiset()
            &&& (forall|i: int| 0 <= i < fresh.len() ==> orderable(s.sort_mode, #[trigger] fresh[i]@))
                ==> sorted_rows(s.sort_mode, rows_view(t.rows))
        }
}


/// The finished turns as the chat view shows them.
pub open spec fn history_transcript(h: Seq<(Seq<char>, Seq<char>)>) -> Seq<char>
    decreases h.len(),
{
    if h.len() == 0 {
        Seq::empty()
    } else {
        history_transcript(h.drop_last()) + "> "@ + h.last().0 + "\n"@ + h.last().1 + "\n\n"@
    }
}

/// The conversation as the chat view shows it: the finished turns, then the active question
/// with the answer so far (or a stray answer); the status line when there is nothing else.
pub open spec fn transcript_text(s: SessionView) -> Seq<char> {
    let body = history_transcript(s.history) + match s.active_question {
        Some(q) => "> "@ + q + "\n"@ + s.answer,
        None => s.answer,
    };
    if body.len() == 0 {
        s.status
    } else {
        body
    }
}

/// The input line of the chat view.
pub open spec fn input_text(s: SessionView) -> Seq<char> {
    if s.question.len() == 0 {
        "Type a follow-up question and press Enter"@
    } else {
        "> "@ + s.question
    }
}

/// How far the conversation is scrolled from its top: as far as it can go, less the rows that
/// the user scrolled back, and no more than a `u16` holds.
pub open spec fn scroll_rows(transcript_rows: nat, viewport_height: nat, chat_scroll: nat) -> nat {
    let max_scroll = if transcript_rows >= viewport_height {
        (transcript_rows - viewport_height) as nat
    } else {
        0
    };
    let back = if max_scroll >= chat_scroll {
        (max_scroll - chat_scroll) as nat
    } else {
        0
    };
    if back <= 0xffff {
        back
    } else {
        0xffff
    }
}

/// The top line of the chat view.
pub open spec fn chat_title_text(s: SessionView) -> Seq<char> {
    "Chat with "@ + match s.chat_process {
        Some(p) => p.name + " (PID "@ + decimal(p.pid as nat) + ")"@,
        None => "selected process"@,
    } + "\nEnter send · ↑/↓ scroll · Esc back"@
}

impl Session {
    /// A fresh session: the monitor view with nothing selected but the first row, sorted by
    /// CPU share (largest first), or in normal order in demonstration mode.
    pub fn new(demo: bool, label: &str) -> (res: Session)
        ensures
            res@ == (SessionView {
                rows: Seq::empty(),
                demo,
                selected: 0,
                question: Seq::empty(),
                answer: Seq::empty(),
                status: welcome_status(),
                busy: false,
                screen: Screen::Monitor,
                chat_process: None,
                history: Seq::empty(),
                active_question: None,
                chat_scroll: 0,
                sort_mode: if demo { SortMode::Normal } else { SortMode::CpuDesc },
                label: label@,
            }),
    {
        let table = ProcessTable::with_demo(demo);
        let res = Session {
            table,
            selected: 0,
            question: Vec::new(),
            answer: Vec::new(),
            status: chars_of("AI enabled · press Enter to explain the selected process"),
            busy: false,
            screen: Screen::Monitor,
            chat_process: None,
            chat_history: Vec::new(),
            active_question: None,
            chat_scroll: 0,
            sort_mode: if demo { SortMode::Normal } else { SortMode::CpuDesc },
            label: chars_of(label),
        };
        assert(res@.rows =~= Seq::<ProcessSnapshot>::empty());
        assert(res@.history =~= Seq::<(Seq<char>, Seq<char>)>::empty());
        res
    }

    fn history_text(&self) -> (res: Vec<char>)
        ensures
            res@ == turns_text(turns_view(self.chat_history@)),
    {
        let ghost h = turns_view(self.chat_history@);
        let mut out: Vec<char> = Vec::new();
        let mut k: usize = 0;
        while k < self.chat_history.len()
            invariant
                k <= self.chat_history.len(),
                h == turns_view(self.chat_history@),
                out@ == turns_text(h.take(k as int)),
            decreases self.chat_history.len() - k,
        {
            assert(h.take(k + 1).drop_last() =~= h.take(k as int));
            assert(h.take(k + 1).last() == h[k as int]);
            let ghost before = out@;
            if k > 0 {
                append_str(&mut out, "\n\n");
            }
            append_str(&mut out, "USER: ");
            append_str(&mut out, self.chat_history[k].question.as_str());
            append_str(&mut out, "\nASSISTANT: ");
            append_str(&mut out, self.chat_history[k].answer.as_str());
            if k == 0 {
                assert(out@ =~= turn_text(h[0]));
            } else {
                assert(out@ =~= before + "\n\n"@ + turn_text(h[k as int]));
            }
            k = k + 1;
        }
        assert(h.take(self.chat_history.len() as int) =~= h);
        out
    }

    /// Asks the model about the chosen process, unless a request is running.
    fn ask(&mut self) -> (req: Option<AskRequest>)
        ensures
            asked(old(self)@, final(self)@, req),
    {
        if self.busy {
            return None;
        }
        let snapshot = match &self.chat_process {
            Some(p) => p.duplicate(),
            None => {
                return None;
            },
        };
        let q: Vec<char> = if self.question.len() == 0 {
            chars_of("Explain this process and any notable evidence.")
        } else {
            let mut taken: Vec<char> = Vec::new();
            std::mem::swap(&mut taken, &mut self.question);
            taken
        };
        let model_q: Vec<char> = if self.chat_history.len() == 0 {
            slice_chars(&q, 0, q.len())
        } else {
            let mut m: Vec<char> = chars_of("Previous conversation:\n");
            let h = self.history_text();
            append_chars(&mut m, &h);
            append_str(&mut m, "\n\nUSER: ");
            append_chars(&mut m, &q);
            m
        };
        assert(q@.subrange(0, q@.len() as int) =~= q@);
        self.question = Vec::new();
        self.active_question = Some(q);
        self.busy = true;
        proof {
            assert(final(self)@.question =~= Seq::<char>::empty());
            if old(self).chat_history.len() == 0 {
                assert(turns_view(old(self).chat_history@).len() == 0);
            }
        }
        Some(AskRequest { snapshot, question: string_of(&model_q) })
    }

    /// Opens the chat about the selected row and asks about it.
    fn open_chat(&mut self) -> (req: Option<AskRequest>)
        ensures
            opened_chat(old(self)@, final(self)@, req),
    {
        if self.selected >= self.table.len() {
            return None;
        }
        let process = self.table.rows()[self.selected].duplicate();
        self.screen = Screen::Chat;
        self.chat_process = Some(process);
        self.chat_history = Vec::new();
        self.answer = Vec::new();
        self.chat_scroll = 0;
        let mut status = slice_chars(&self.label, 0, self.label.len());
        append_str(&mut status, " · Esc back to processes");
        self.status = status;
        proof {
            assert(self.label@.subrange(0, self.label@.len() as int) =~= self.label@);
            assert(turns_view(self.chat_history@) =~= Seq::<(Seq<char>, Seq<char>)>::empty());
        }
        self.ask()
    }

    /// Sorts the rows in the session's mode and keeps the selection within them.
    fn apply_sort(&mut self)
        ensures
            final(self)@ == (SessionView {
                rows: final(self)@.rows,
                selected: min_index(old(self)@.selected, last_row(old(self)@.rows.len())),
                ..old(self)@
            }),
            final(self)@.rows.to_multiset() == old(self)@.rows.to_multiset(),
            (forall|i: int|
                0 <= i < old(self)@.rows.len() ==> orderable(old(self)@.sort_mode, #[trigger] old(self)@.rows[i]@))
                ==> sorted_rows(old(self)@.sort_mode, rows_view(final(self)@.rows)),
    {
        self.table.sort_by(self.sort_mode);
        let len = self.table.len();
        proof {
            vstd::seq_lib::to_multiset_len(old(self).table.row_seq());
            vstd::seq_lib::to_multiset_len(self.table.row_seq());
        }
        let last: usize = if len == 0 { 0 } else { len - 1 };
        if self.selected > last {
            self.selected = last;
        }
    }

    /// Takes a fresh listing of processes (ignored in demonstration mode), re-sorts the rows
    /// and keeps the selection within them.
    pub fn refresh_rows(
        &mut self,
        listing: &Vec<ProcessInfo>,
        metrics: &Vec<MacProcessMetrics>,
        platform: Platform,
    )
        ensures
            refreshed(old(self)@, final(self)@, listing@, metrics@, platform),
    {
        self.table.refresh(listing, metrics, platform);
        let ghost fresh = self.table.row_seq();
        let ghost mid = self@;
        self.apply_sort();
        assert(mid == SessionView { rows: fresh, ..old(self)@ });
        assert(fresh.len() == mid.rows.len());
        assert(self@ == SessionView {
            rows: self@.rows,
            selected: min_index(old(self)@.selected, last_row(fresh.len())),
            ..old(self)@
        });
        assert(old(self)@.demo == old(self).table.demo_mode());
        assert(self@.rows.to_multiset() == fresh.to_multiset());
        assert((forall|i: int| 0 <= i < fresh.len() ==> orderable(old(self)@.sort_mode, #[trigger] fresh[i]@))
            ==> sorted_rows(old(self)@.sort_mode, rows_view(self@.rows)));
        assert(if old(self)@.demo {
            rows_view(fresh) == demo_rows()
        } else {
            merged(rows_view(fresh), rows_view(old(self)@.rows), listing_rows(listing@, metrics@, platform))
        });
    }

    /// One tick of the refresh schedule at `now_ms`: when a refresh is due, the rows are
    /// refreshed from the listing, re-sorted and the selection kept within them, and the
    /// deadline moves on; otherwise nothing changes.
    pub fn on_tick(
        &mut self,
        timer: &mut RefreshTimer,
        now_ms: u64,
        listing: &Vec<ProcessInfo>,
        metrics: &Vec<MacProcessMetrics>,
        platform: Platform,
    ) -> (due: bool)
        requires
            now_ms as nat + old(timer).interval_ms as nat <= u64::MAX,
            old(timer).deadline_ms as nat + old(timer).interval_ms as nat <= u64::MAX,
        ensures
            due == (now_ms >= old(timer).deadline_ms),
            final(timer).interval_ms == old(timer).interval_ms,
            final(timer).deadline_ms == if due {
                next_deadline(old(timer).deadline_ms as nat, now_ms as nat, old(timer).interval_ms as nat)
            } else {
                old(timer).deadline_ms as nat
            },
            due ==> refreshed(old(self)@, final(self)@, listing@, metrics@, platform),
            !due ==> final(self)@ == old(self)@,
    {
        let due = timer.tick(now_ms);
        if due {
            self.refresh_rows(listing, metrics, platform);
        }
        due
    }

    fn typed(c: char) -> (res: bool)
        ensures
            res == is_typed(c),
    {
        ('!' <= c && c <= '~') || c == ' '
    }

    fn set_selected(&mut self, sel: usize)
        ensures
            final(self)@ == (SessionView { selected: sel, ..old(self)@ }),
    {
        self.selected = sel;
    }

    /// Handles a key press in whichever view is shown.
    pub fn key(&mut self, key: Key) -> (out: KeyOutcome)
        ensures
            old(self)@.screen == Screen::Monitor ==> monitor_step(
                old(self)@,
                key,
                final(self)@,
                out.quit,
                out.request,
            ),
            old(self)@.screen == Screen::Chat ==> chat_step(
                old(self)@,
                key,
                final(self)@,
                out.quit,
                out.request,
            ),
            out.cancel == cancels(old(self)@, key, out.quit),
    {
        if self.screen == Screen::Chat {
            return self.chat_key(key);
        }
        let len = self.table.len();
        let last: usize = if len == 0 { 0 } else { len - 1 };
        let page: usize = if len / 2 > 10 { len / 2 } else { 10 };
        let none = KeyOutcome { quit: false, cancel: false, request: None };
        match key {
            Key::Esc => KeyOutcome { quit: true, cancel: true, request: None },
            Key::Down => {
                if self.selected < last && self.selected + 1 < len {
                    let s = self.selected + 1;
                    self.set_selected(s);
                }
                none
            },
            Key::Up => {
                let s: usize = if self.selected >= 1 { self.selected - 1 } else { 0 };
                self.set_selected(s);
                none
            },
            Key::Enter => KeyOutcome { quit: false, cancel: false, request: self.open_chat() },
            Key::Backspace => {
                self.question.pop();
                none
            },
            Key::Other => none,
            Key::Char { c, ctrl } => {
                if c == 'q' {
                    KeyOutcome { quit: true, cancel: true, request: None }
                } else if c == 'j' {
                    if self.selected < last && self.selected + 1 < len {
                        let s = self.selected + 1;
                        self.set_selected(s);
                    }
                    none
                } else if c == 'k' {
                    let s: usize = if self.selected >= 1 { self.selected - 1 } else { 0 };
                    self.set_selected(s);
                    none
                } else if c == 'g' {
                    self.set_selected(0);
                    none
                } else if c == 'G' {
                    self.set_selected(last);
                    none
                } else if c == 'd' && ctrl {
                    let down: usize = if self.selected <= usize::MAX - page {
                        self.selected + page
                    } else {
                        usize::MAX
                    };
                    let s: usize = if down <= last { down } else { last };
                    self.set_selected(s);
                    none
                } else if c == 'u' && ctrl {
                    let s: usize = if self.selected >= page { self.selected - page } else { 0 };
                    self.set_selected(s);
                    none
                } else if c == 'a' {
                    KeyOutcome { quit: false, cancel: false, request: self.open_chat() }
                } else if c == 'n' || c == 'c' || c == 'm' {
                    self.sort_mode = self.sort_mode.next_for(c);
                    self.apply_sort();
                    none
                } else if Self::typed(c) {
                    self.question.push(c);
                    none
                } else {
                    none
                }
            },
        }
    }

    /// Handles a key press in the chat view.
    fn chat_key(&mut self, key: Key) -> (out: KeyOutcome)
        requires
            old(self)@.screen == Screen::Chat,
        ensures
            chat_step(old(self)@, key, final(self)@, out.quit, out.request),
            out.cancel == cancels(old(self)@, key, out.quit),
    {
        let none = KeyOutcome { quit: false, cancel: false, request: None };
        match key {
            Key::Esc => {
                let running = self.busy;
                self.screen = Screen::Monitor;
                self.chat_process = None;
                self.chat_history = Vec::new();
                self.answer = Vec::new();
                self.active_question = None;
                assert(turns_view(self.chat_history@) =~= Seq::<(Seq<char>, Seq<char>)>::empty());
                KeyOutcome { quit: false, cancel: running, request: None }
            },
            Key::Enter => KeyOutcome { quit: false, cancel: false, request: self.ask() },
            Key::Up => {
                self.chat_scroll = if self.chat_scroll < usize::MAX {
                    self.chat_scroll + 1
                } else {
                    usize::MAX
                };
                none
            },
            Key::Down => {
                self.chat_scroll = if self.chat_scroll >= 1 { self.chat_scroll - 1 } else { 0 };
                none
            },
            Key::Backspace => {
                self.question.pop();
                none
            },
            Key::Char { c, ctrl } => {
                if Self::typed(c) {
                    self.question.push(c);
                }
                none
            },
            Key::Other => none,
        }
    }

    /// The conversation text shown in the chat view.
    pub fn transcript(&self) -> (res: String)
        ensures
            res@ == transcript_text(self@),
    {
        let ghost h = turns_view(self.chat_history@);
        let mut out: Vec<char> = Vec::new();
        let mut k: usize = 0;
        while k < self.chat_history.len()
            invariant
                k <= self.chat_history.len(),
                h == turns_view(self.chat_history@),
                out@ == history_transcript(h.take(k as int)),
            decreases self.chat_history.len() - k,
        {
            assert(h.take(k + 1).drop_last() =~= h.take(k as int));
            assert(h.take(k + 1).last() == h[k as int]);
            let ghost before = out@;
            append_str(&mut out, "> ");
            append_str(&mut out, self.chat_history[k].question.as_str());
            append_str(&mut out, "\n");
            append_str(&mut out, self.chat_history[k].answer.as_str());
            append_str(&mut out, "\n\n");
            assert(out@ =~= before + "> "@ + h[k as int].0 + "\n"@ + h[k as int].1 + "\n\n"@);
            k = k + 1;
        }
        assert(h.take(self.chat_history.len() as int) =~= h);
        let ghost hist = out@;
        match &self.active_question {
            Some(q) => {
                append_str(&mut out, "> ");
                append_chars(&mut out, q);
                append_str(&mut out, "\n");
                append_chars(&mut out, &self.answer);
                assert(out@ =~= hist + ("> "@ + q@ + "\n"@ + self.answer@));
            },
            None => {
                append_chars(&mut out, &self.answer);
            },
        }
        if out.len() == 0 {
            string_of(&self.status)
        } else {
            string_of(&out)
        }
    }

    /// The input line of the chat view.
    pub fn input_line(&self) -> (res: String)
        ensures
            res@ == input_text(self@),
    {
        if self.question.len() == 0 {
            String::from_str("Type a follow-up question and press Enter")
        } else {
            let mut out: Vec<char> = chars_of("> ");
            append_chars(&mut out, &self.question);
            string_of(&out)
        }
    }

    /// The top line of the chat view.
    pub fn chat_title(&self) -> (res: String)
        ensures
            res@ == chat_title_text(self@),
    {
        let mut out: Vec<char> = chars_of("Chat with ");
        match &self.chat_process {
            Some(p) => {
                append_str(&mut out, p.name.as_str());
                append_str(&mut out, " (PID ");
                push_decimal(&mut out, p.pid as u128);
                append_str(&mut out, ")");
            },
            None => {
                append_str(&mut out, "selected process");
            },
        }
        append_str(&mut out, "\nEnter send · ↑/↓ scroll · Esc back");
        string_of(&out)
    }

    /// Marks the running model request as ended, so that another may start.
    pub fn task_finished(&mut self)
        ensures
            final(self)@ == (SessionView { busy: false, ..old(self)@ }),
    {
        self.busy = false;
    }

    /// The table of processes.
    pub fn table(&self) -> (res: &ProcessTable)
        ensures
            res.row_seq() == self@.rows,
    {
        &self.table
    }

    /// The selected row.
    pub fn selected(&self) -> (res: usize)
        ensures
            res == self@.selected,
    {
        self.selected
    }

    /// The screen shown.
    pub fn screen(&self) -> (res: Screen)
        ensures
            res == self@.screen,
    {
        self.screen
    }

    /// The sort mode.
    pub fn sort_mode(&self) -> (res: SortMode)
        ensures
            res == self@.sort_mode,
    {
        self.sort_mode
    }

    /// The status line.
    pub fn status(&self) -> (res: String)
        ensures
            res@ == self@.status,
    {
        string_of(&self.status)
    }

    /// How many rows the user scrolled the conversation back.
    pub fn chat_scroll(&self) -> (res: usize)
        ensures
            res == self@.chat_scroll,
    {
        self.chat_scroll
    }

    /// Whether a model request is running.
    pub fn busy(&self) -> (res: bool)
        ensures
            res == self@.busy,
    {
        self.busy
    }

    /// Applies one event from the model engine.
    pub fn apply_event(&mut self, event: AiEvent)
        ensures
            final(self)@ == after_event(old(self)@, event),
    {
        match event {
            AiEvent::Started => {
                self.answer = Vec::new();
                let mut status = self.label.clone();
                append_str(&mut status, " connecting…");
                self.status = status;
            },
            AiEvent::Token(t) => {
                append_str(&mut self.answer, t.as_str());
            },
            AiEvent::Finished { ttft_ms, tokens } => {
                let mut status: Vec<char> = chars_of("answer complete · TTFT ");
                push_decimal(&mut status, ttft_ms);
                append_str(&mut status, "ms · ");
                push_decimal(&mut status, tokens as u128);
                append_str(&mut status, " tokens");
                let active = self.active_question.take();
                match active {
                    Some(q) => {
                        let mut answer: Vec<char> = Vec::new();
                        std::mem::swap(&mut answer, &mut self.answer);
                        let ghost before = turns_view(self.chat_history@);
                        let turn = ChatTurn { question: string_of(&q), answer: string_of(&answer) };
                        self.chat_history.push(turn);
                        assert(turns_view(self.chat_history@) =~= before.push((q@, answer@)));
                    },
                    None => {},
                }
                self.status = status;
            },
            AiEvent::Error(m) => {
                self.status = chars_of(m.as_str());
            },
        }
    }
}


/// How far the conversation is scrolled from its top, for a conversation of
/// `transcript_rows` rows in a viewport of `viewport_height` rows, scrolled back by
/// `chat_scroll` rows.
pub fn scroll_offset(transcript_rows: usize, viewport_height: u16, chat_scroll: usize) -> (res: u16)
    ensures
        res == scroll_rows(transcript_rows as nat, viewport_height as nat, chat_scroll as nat),
{
    let h = viewport_height as usize;
    let max_scroll: usize = if transcript_rows >= h { transcript_rows - h } else { 0 };
    let back: usize = if max_scroll >= chat_scroll { max_scroll - chat_scroll } else { 0 };
    if back <= 0xffff {
        back as u16
    } else {
        0xffff
    }
}

/// The deadline of the next refresh of the process list, in milliseconds on a monotonic clock.
pub struct RefreshTimer {
    pub deadline_ms: u64,
    pub interval_ms: u64,
}

/// The next deadline after a refresh that was due at `deadline` and ran at `now`: one interval
/// after the previous deadline, so that slow drawing does not push refreshes out for good,
/// unless that is not later than `now`, when it is one interval after `now`.
pub open spec fn next_deadline(deadline: nat, now: nat, interval: nat) -> nat {
    if deadline + interval <= now {
        now + interval
    } else {
        deadline + interval
    }
}

impl RefreshTimer {
    /// A timer that is first due one interval after `now`.
    pub fn new(now_ms: u64, interval_ms: u64) -> (res: RefreshTimer)
        requires
            now_ms as nat + interval_ms as nat <= u64::MAX,
        ensures
            res.deadline_ms == now_ms + interval_ms,
            res.interval_ms == interval_ms,
    {
        RefreshTimer { deadline_ms: now_ms + interval_ms, interval_ms }
    }

    /// Whether a refresh is due at `now`, without moving the deadline.
    pub fn due(&self, now_ms: u64) -> (res: bool)
        ensures
            res == (now_ms >= self.deadline_ms),
    {
        now_ms >= self.deadline_ms
    }

    /// Whether a refresh is due at `now`; when it is, the deadline moves on.
    pub fn tick(&mut self, now_ms: u64) -> (due: bool)
        requires
            now_ms as nat + old(self).interval_ms as nat <= u64::MAX,
            old(self).deadline_ms as nat + old(self).interval_ms as nat <= u64::MAX,
        ensures
            due == (now_ms >= old(self).deadline_ms),
            final(self).interval_ms == old(self).interval_ms,
            final(self).deadline_ms == if due {
                next_deadline(old(self).deadline_ms as nat, now_ms as nat, old(self).interval_ms as nat)
            } else {
                old(self).deadline_ms as nat
            },
    {
        if now_ms < self.deadline_ms {
            return false;
        }
        let next = self.deadline_ms + self.interval_ms;
        self.deadline_ms = if next <= now_ms { now_ms + self.interval_ms } else { next };
        true
    }
}


// ---------------------------------------------------------------------------------------------
// Laws of the session.

/// `q` quits the monitor, but in the chat it is typed into the question like any letter.
pub proof fn lemma_q_quits_monitor_but_is_typed_in_chat(
    s: SessionView,
    t: SessionView,
    ctrl: bool,
    quit: bool,
    req: Option<AskRequest>,
)
    ensures
        monitor_step(s, Key::Char { c: 'q', ctrl }, t, quit, req) ==> quit && t == s,
        chat_step(s, Key::Char { c: 'q', ctrl }, t, quit, req) ==> !quit && t.question
            == s.question.push('q') && t.screen == s.screen,
{
}

/// Esc leaves the chat for the monitor, drops the chosen process, the conversation and the
/// answer, and cancels the answer being generated, if any; in the monitor it quits, which
/// cancels too.
pub proof fn lemma_escape(s: SessionView, t: SessionView, quit: bool, req: Option<AskRequest>)
    ensures
        s.screen == Screen::Chat && chat_step(s, Key::Esc, t, quit, req) ==> !quit && t.screen
            == Screen::Monitor && t.chat_process is None && t.history.len() == 0 && t.answer.len()
            == 0 && t.active_question is None && req is None && (cancels(
            s,
            Key::Esc,
            quit,
        ) <==> s.busy),
        s.screen == Screen::Monitor && monitor_step(s, Key::Esc, t, quit, req) ==> quit
            && cancels(s, Key::Esc, quit),
{
}

/// A question typed in the monitor is the one asked when Enter opens the chat about the
/// selected process.
pub proof fn lemma_typed_question_is_asked(
    s: SessionView,
    t: SessionView,
    quit: bool,
    req: Option<AskRequest>,
)
    requires
        monitor_step(s, Key::Enter, t, quit, req),
        s.selected < s.rows.len(),
        !s.busy,
        s.question.len() > 0,
    ensures
        !quit,
        t.screen == Screen::Chat,
        t.chat_process == Some(s.rows[s.selected as int]@),
        t.active_question == Some(s.question),
        t.question.len() == 0,
        req matches Some(r) && r.snapshot@ == s.rows[s.selected as int]@ && r.question@
            == s.question,
{
}

/// While a model request runs, no key starts another.
pub proof fn lemma_one_request_at_a_time(
    s: SessionView,
    key: Key,
    t: SessionView,
    quit: bool,
    req: Option<AskRequest>,
)
    requires
        s.busy,
        monitor_step(s, key, t, quit, req) || chat_step(s, key, t, quit, req),
    ensures
        req is None,
        t.busy,
{
}

/// A request starts only about the chosen process, marks the session busy and remembers the
/// question it asks.
pub proof fn lemma_request_is_about_the_chosen_process(
    s: SessionView,
    t: SessionView,
    req: Option<AskRequest>,
)
    requires
        asked(s, t, req),
        req is Some,
    ensures
        t.busy,
        t.chat_process == s.chat_process,
        req.unwrap().snapshot@ == t.chat_process.unwrap(),
        t.active_question is Some,
        t.question.len() == 0,
{
}

/// In the monitor, the selection stays on a row (or at 0 for an empty table) whatever key is
/// pressed.
pub proof fn lemma_selection_stays_on_a_row(
    s: SessionView,
    key: Key,
    t: SessionView,
    quit: bool,
    req: Option<AskRequest>,
)
    requires
        s.screen == Screen::Monitor,
        s.rows.len() <= usize::MAX,
        s.selected <= last_row(s.rows.len()),
        monitor_step(s, key, t, quit, req),
    ensures
        t.selected <= last_row(t.rows.len()),
{
    vstd::seq_lib::to_multiset_len(s.rows);
    vstd::seq_lib::to_multiset_len(t.rows);
    if let Key::Char { c, ctrl } = key {
        if c == 'n' || c == 'c' || c == 'm' {
            assert(t.rows.len() == s.rows.len());
        }
    }
}

/// When an answer finishes, its question and the answer are filed in the history, and the
/// next answer starts empty.
pub proof fn lemma_finished_answer_is_filed(s: SessionView, ttft_ms: u128, tokens: usize)
    requires
        s.active_question is Some,
    ensures
        after_event(s, AiEvent::Finished { ttft_ms, tokens }).history == s.history.push(
            (s.active_question.unwrap(), s.answer),
        ),
        after_event(s, AiEvent::Finished { ttft_ms, tokens }).answer.len() == 0,
        after_event(s, AiEvent::Finished { ttft_ms, tokens }).active_question is None,
{
}

/// The next refresh is always due after the current time, and refreshing late does not move
/// the schedule when the next deadline is still ahead.
pub proof fn lemma_refresh_schedule(deadline: nat, now: nat, interval: nat)
    requires
        interval > 0,
        deadline <= now,
    ensures
        next_deadline(deadline, now, interval) > now,
        deadline + interval > now ==> next_deadline(deadline, now, interval) == deadline + interval,
{
}

/// In the chat, every visible ASCII character and the space is typed into the question,
/// whether or not Control is held, and any other character leaves the session as it is.
pub proof fn lemma_printable_keys_are_typed_in_chat(
    s: SessionView,
    c: char,
    ctrl: bool,
    t: SessionView,
    quit: bool,
    req: Option<AskRequest>,
)
    requires
        chat_step(s, Key::Char { c, ctrl }, t, quit, req),
    ensures
        !quit,
        req is None,
        ' ' <= c <= '~' ==> t == (SessionView { question: s.question.push(c), ..s }),
        !(' ' <= c <= '~') ==> t == s,
{
}

/// In the monitor, the space and every visible ASCII character that is no command key is
/// typed into the question.
pub proof fn lemma_printable_keys_are_typed_in_monitor(
    s: SessionView,
    c: char,
    ctrl: bool,
    t: SessionView,
    quit: bool,
    req: Option<AskRequest>,
)
    requires
        monitor_step(s, Key::Char { c, ctrl }, t, quit, req),
        ' ' <= c <= '~',
        c != 'q' && c != 'j' && c != 'k' && c != 'g' && c != 'G' && c != 'a',
        c != 'n' && c != 'c' && c != 'm',
        !(ctrl && (c == 'd' || c == 'u')),
    ensures
        !quit,
        req is None,
        t == (SessionView { question: s.question.push(c), ..s }),
{
}

/// The space key types a space into the question in both views.
pub proof fn lemma_space_is_typed(
    s: SessionView,
    ctrl: bool,
    t: SessionView,
    quit: bool,
    req: Option<AskRequest>,
)
    ensures
        monitor_step(s, Key::Char { c: ' ', ctrl }, t, quit, req) ==> t.question == s.question.push(
            ' ',
        ) && !quit && req is None,
        chat_step(s, Key::Char { c: ' ', ctrl }, t, quit, req) ==> t.question == s.question.push(
            ' ',
        ) && !quit && req is None,
{
}

/// The conversation sent to the model holds every finished turn, in order: one turn is
/// "USER: " and its question, then "\nASSISTANT: " and its answer, and the conversation of
/// two runs of turns is the first, a blank line, then the second.
pub proof fn lemma_conversation_holds_every_turn(
    a: Seq<(Seq<char>, Seq<char>)>,
    b: Seq<(Seq<char>, Seq<char>)>,
    x: (Seq<char>, Seq<char>),
)
    ensures
        turns_text(Seq::empty()) == Seq::<char>::empty(),
        turns_text(seq![x]) == "USER: "@ + x.0 + "\nASSISTANT: "@ + x.1,
        a.len() > 0 && b.len() > 0 ==> turns_text(a + b) == turns_text(a) + "\n\n"@ + turns_text(
            b,
        ),
        a.len() > 0 ==> turns_text(a.push(x)) == turns_text(a) + "\n\n"@ + "USER: "@ + x.0
            + "\nASSISTANT: "@ + x.1,
    decreases b.len(),
{
    let one = seq![x];
    assert(one.len() == 1 && one[0] == x);
    if a.len() > 0 {
        assert(a.push(x).drop_last() =~= a);
        assert(a.push(x).last() == x);
        assert(turns_text(a) + "\n\n"@ + ("USER: "@ + x.0 + "\nASSISTANT: "@ + x.1) =~= turns_text(a)
            + "\n\n"@ + "USER: "@ + x.0 + "\nASSISTANT: "@ + x.1);
    }
    if a.len() > 0 && b.len() > 0 {
        assert((a + b).drop_last() =~= a + b.drop_last());
        assert((a + b).last() == b.last());
        if b.len() > 1 {
            lemma_conversation_holds_every_turn(a, b.drop_last(), x);
            assert(turns_text(a + b) == turns_text(a + b.drop_last()) + "\n\n"@ + turn_text(b.last()));
            assert(turns_text(b) == turns_text(b.drop_last()) + "\n\n"@ + turn_text(b.last()));
            assert(turns_text(a) + "\n\n"@ + turns_text(b.drop_last()) + "\n\n"@ + turn_text(b.last())
                =~= turns_text(a) + "\n\n"@ + (turns_text(b.drop_last()) + "\n\n"@ + turn_text(
                b.last(),
            )));
        } else {
            assert(a + b.drop_last() =~= a);
            assert(b.last() == b[0]);
        }
    }
}

/// The chat view shows every finished turn, in order: one turn is "> " and its question, a
/// line feed, its answer and a blank line, and the view of two runs of turns is the view of
/// the first followed by the view of the second.
pub proof fn lemma_transcript_shows_every_turn(
    a: Seq<(Seq<char>, Seq<char>)>,
    b: Seq<(Seq<char>, Seq<char>)>,
    x: (Seq<char>, Seq<char>),
)
    ensures
        history_transcript(Seq::empty()) == Seq::<char>::empty(),
        history_transcript(seq![x]) == "> "@ + x.0 + "\n"@ + x.1 + "\n\n"@,
        history_transcript(a + b) == history_transcript(a) + history_transcript(b),
        history_transcript(a.push(x)) == history_transcript(a) + "> "@ + x.0 + "\n"@ + x.1
            + "\n\n"@,
    decreases b.len(),
{
    let one = seq![x];
    assert(one.drop_last() =~= Seq::<(Seq<char>, Seq<char>)>::empty());
    assert(one.last() == x);
    assert(history_transcript(one.drop_last()) == Seq::<char>::empty());
    assert(Seq::<char>::empty() + "> "@ + x.0 + "\n"@ + x.1 + "\n\n"@ =~= "> "@ + x.0 + "\n"@ + x.1
        + "\n\n"@);
    assert(a.push(x).drop_last() =~= a);
    assert(a.push(x).last() == x);
    if b.len() == 0 {
        assert(a + b =~= a);
        assert(history_transcript(a) + history_transcript(b) =~= history_transcript(a));
    } else {
        assert((a + b).drop_last() =~= a + b.drop_last());
        assert((a + b).last() == b.last());
        lemma_transcript_shows_every_turn(a, b.drop_last(), x);
        let y = b.last();
        assert(history_transcript(a) + history_transcript(b.drop_last()) + "> "@ + y.0 + "\n"@ + y.1
            + "\n\n"@ =~= history_transcript(a) + (history_transcript(b.drop_last()) + "> "@ + y.0
            + "\n"@ + y.1 + "\n\n"@));
    }
}

} // verus!
