use whytop::ai::AiEvent;
use whytop::process::{Platform, ProcessInfo};
use whytop::session::{scroll_offset, Key, RefreshTimer, Screen, Session};
use whytop::sort_mode::SortMode;

fn ch(c: char) -> Key {
    Key::Char { c, ctrl: false }
}

fn demo_session() -> Session {
    let mut s = Session::new(true, "Demo");
    s.refresh_rows(&vec![], &vec![], Platform::Other);
    s
}

fn listing(n: u32) -> Vec<ProcessInfo> {
    (1..=n)
        .map(|pid| ProcessInfo {
            pid,
            parent_pid: None,
            start_time: 1,
            name: format!("p{pid}"),
            cpu_percent_bits: (pid as f32).to_bits(),
            memory_bytes: pid as u64,
            executable: None,
            has_working_directory: true,
            command: vec![],
        })
        .collect()
}

#[test]
fn starts_in_the_monitor_sorted_by_cpu() {
    let s = Session::new(false, "llama-server");
    assert_eq!(s.screen(), Screen::Monitor);
    assert_eq!(s.sort_mode(), SortMode::CpuDesc);
    assert_eq!(s.status(), "AI enabled · press Enter to explain the selected process");
    assert_eq!(Session::new(true, "x").sort_mode(), SortMode::Normal);
}

#[test]
fn navigation_stays_on_the_rows() {
    let mut s = demo_session();
    assert_eq!(s.table().len(), 6);
    s.key(Key::Up);
    assert_eq!(s.selected(), 0);
    s.key(ch('G'));
    assert_eq!(s.selected(), 5);
    s.key(Key::Down);
    assert_eq!(s.selected(), 5);
    s.key(ch('k'));
    assert_eq!(s.selected(), 4);
    s.key(ch('g'));
    assert_eq!(s.selected(), 0);
    s.key(ch('j'));
    assert_eq!(s.selected(), 1);
    s.key(Key::Char { c: 'd', ctrl: true });
    assert_eq!(s.selected(), 5);
    s.key(Key::Char { c: 'u', ctrl: true });
    assert_eq!(s.selected(), 0);
}

#[test]
fn paging_moves_by_half_the_table() {
    let mut s = Session::new(false, "x");
    s.refresh_rows(&listing(40), &vec![], Platform::Other);
    s.key(Key::Char { c: 'd', ctrl: true });
    assert_eq!(s.selected(), 20);
    s.key(Key::Char { c: 'd', ctrl: true });
    assert_eq!(s.selected(), 39);
    s.key(Key::Char { c: 'u', ctrl: true });
    assert_eq!(s.selected(), 19);
}

#[test]
fn q_quits_the_monitor_and_typing_fills_the_question() {
    let mut s = demo_session();
    s.key(ch('w'));
    s.key(ch('h'));
    s.key(ch('y'));
    s.key(ch('?'));
    s.key(Key::Backspace);
    assert!(!s.key(ch('x')).quit);
    assert!(s.key(ch('q')).quit);
    let esc = s.key(Key::Esc);
    assert!(esc.quit);
    assert!(esc.cancel);
    let out = s.key(Key::Enter);
    assert_eq!(s.screen(), Screen::Chat);
    assert_eq!(out.request.expect("a request").question, "whyx");
}

#[test]
fn the_typed_question_is_asked_about_the_selected_process() {
    let mut s = demo_session();
    s.key(ch('j'));
    for c in "why?".chars() {
        s.key(ch(c));
    }
    let out = s.key(Key::Enter);
    let req = out.request.expect("a request");
    assert_eq!(req.snapshot.pid, 928);
    assert_eq!(req.question, "why?");
    assert_eq!(s.input_line(), "Type a follow-up question and press Enter");
    assert_eq!(s.transcript(), "> why?\n");
}

#[test]
fn escape_during_an_answer_cancels_it() {
    let mut s = demo_session();
    s.key(Key::Enter);
    assert!(s.busy());
    let out = s.key(Key::Esc);
    assert!(!out.quit);
    assert!(out.cancel);
    assert!(out.request.is_none());
    assert_eq!(s.screen(), Screen::Monitor);
    s.task_finished();
    s.key(Key::Enter);
    s.task_finished();
    let out = s.key(Key::Esc);
    assert!(!out.cancel);
    assert_eq!(s.screen(), Screen::Monitor);
    assert!(!s.key(ch('j')).cancel);
    assert!(s.key(ch('q')).cancel);
}

#[test]
fn sort_keys_resort_and_clamp() {
    let mut s = demo_session();
    s.key(ch('G'));
    s.key(ch('m'));
    assert_eq!(s.sort_mode(), SortMode::MemoryDesc);
    let pids: Vec<u32> = s.table().rows().iter().map(|p| p.pid).collect();
    assert_eq!(pids, vec![412, 928, 1440, 2081, 3176, 5012]);
    assert_eq!(s.selected(), 5);
    s.key(ch('m'));
    assert_eq!(s.sort_mode(), SortMode::MemoryAsc);
    let pids: Vec<u32> = s.table().rows().iter().map(|p| p.pid).collect();
    assert_eq!(pids, vec![5012, 3176, 2081, 1440, 928, 412]);
}

#[test]
fn enter_opens_the_chat_and_asks_the_default_question() {
    let mut s = demo_session();
    s.key(ch('j'));
    let out = s.key(Key::Enter);
    assert!(!out.quit);
    let req = out.request.expect("a request");
    assert_eq!(req.snapshot.pid, 928);
    assert_eq!(req.question, "Explain this process and any notable evidence.");
    assert_eq!(s.screen(), Screen::Chat);
    assert!(s.busy());
    assert_eq!(s.status(), "Demo · Esc back to processes");
    assert_eq!(s.chat_title(), "Chat with WindowServer (PID 928)\nEnter send · ↑/↓ scroll · Esc back");
    assert_eq!(s.transcript(), "> Explain this process and any notable evidence.\n");
}

#[test]
fn chat_keeps_the_conversation_and_q_is_typed() {
    let mut s = demo_session();
    s.key(ch('a'));
    s.apply_event(AiEvent::Started);
    assert_eq!(s.status(), "Demo connecting…");
    s.apply_event(AiEvent::Token("It is ".into()));
    s.apply_event(AiEvent::Token("an agent.".into()));
    s.apply_event(AiEvent::Finished { ttft_ms: 12, tokens: 2 });
    assert_eq!(s.status(), "answer complete · TTFT 12ms · 2 tokens");
    s.task_finished();
    for c in "quiet?".chars() {
        assert!(!s.key(ch(c)).quit);
    }
    assert_eq!(s.input_line(), "> quiet?");
    let req = s.key(Key::Enter).request.expect("a request");
    assert_eq!(
        req.question,
        "Previous conversation:\nUSER: Explain this process and any notable evidence.\nASSISTANT: It is an agent.\n\nUSER: quiet?"
    );
    assert_eq!(s.input_line(), "Type a follow-up question and press Enter");
    assert!(s.key(Key::Enter).request.is_none());
    assert_eq!(
        s.transcript(),
        "> Explain this process and any notable evidence.\nIt is an agent.\n\n> quiet?\n"
    );
    s.key(Key::Up);
    s.key(Key::Up);
    s.key(Key::Down);
    assert_eq!(s.chat_scroll(), 1);
    s.key(Key::Esc);
    assert_eq!(s.screen(), Screen::Monitor);
}

#[test]
fn an_error_replaces_the_status() {
    let mut s = demo_session();
    s.apply_event(AiEvent::Error("AI unavailable: refused".into()));
    assert_eq!(s.status(), "AI unavailable: refused");
    assert_eq!(s.transcript(), "AI unavailable: refused");
}

#[test]
fn enter_on_an_empty_table_does_nothing() {
    let mut s = Session::new(false, "x");
    let out = s.key(Key::Enter);
    assert!(out.request.is_none());
    assert_eq!(s.screen(), Screen::Monitor);
}

#[test]
fn scroll_offsets_follow_the_bottom() {
    assert_eq!(scroll_offset(50, 10, 0), 40);
    assert_eq!(scroll_offset(50, 10, 5), 35);
    assert_eq!(scroll_offset(50, 10, 100), 0);
    assert_eq!(scroll_offset(5, 10, 0), 0);
    assert_eq!(scroll_offset(200_000, 0, 0), u16::MAX);
}

#[test]
fn refresh_deadlines_do_not_drift() {
    let mut t = RefreshTimer::new(0, 500);
    assert!(!t.tick(499));
    assert!(t.tick(520));
    assert_eq!(t.deadline_ms, 1000);
    assert!(t.tick(2600));
    assert_eq!(t.deadline_ms, 3100);
}

#[test]
fn escape_drops_the_conversation() {
    let mut s = demo_session();
    s.key(Key::Enter);
    s.apply_event(AiEvent::Token("busy".to_string()));
    s.apply_event(AiEvent::Finished { ttft_ms: 5, tokens: 1 });
    s.task_finished();
    assert!(s.transcript().contains("busy"));
    s.key(Key::Esc);
    assert_eq!(s.screen(), Screen::Monitor);
    // With no turns and no answer left, the chat view shows only the status line.
    assert_eq!(s.transcript(), s.status());
}

#[test]
fn a_due_tick_refreshes_and_moves_the_deadline() {
    let mut s = Session::new(false, "x");
    let mut timer = RefreshTimer::new(0, 500);
    assert!(!s.on_tick(&mut timer, 100, &listing(5), &vec![], Platform::Other));
    assert_eq!(s.table().len(), 0);
    assert_eq!(timer.deadline_ms, 500);
    assert!(s.on_tick(&mut timer, 600, &listing(5), &vec![], Platform::Other));
    assert_eq!(s.table().len(), 5);
    assert_eq!(timer.deadline_ms, 1000);
    s.key(ch('G'));
    assert_eq!(s.selected(), 4);
    assert!(s.on_tick(&mut timer, 2000, &listing(2), &vec![], Platform::Other));
    assert_eq!(timer.deadline_ms, 2500);
    assert_eq!(s.table().len(), 2);
    assert_eq!(s.selected(), 1);
}
