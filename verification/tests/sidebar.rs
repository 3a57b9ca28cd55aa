//! The sidebar's panels.

use deepseek_tui::layout::Area;
use deepseek_tui::sidebar::{
    render_sidebar, render_sidebar_plan, render_sidebar_rows, render_sidebar_section,
    render_sidebar_subagents, render_sidebar_tasks, render_sidebar_todos, AgentEntry, AgentPanel,
    Line, Panel, Piece, PlanSnapshot, PlanStep, SidebarFocus, SidebarState, Span, StepStatus,
    SubAgentStatus, TaskEntry, TaskPanel, TodoItem, TodoSnapshot, Tone,
};

fn area(width: u16, height: u16) -> Area {
    Area { x: 3, y: 2, width, height }
}

fn state(focus: SidebarFocus) -> SidebarState {
    SidebarState {
        focus,
        plan: None,
        todos: None,
        tasks: TaskPanel { turn_id: None, turn_status: None, tasks: Vec::new() },
        agents: AgentPanel { cache: Vec::new(), progress: Vec::new() },
    }
}

/// A span on paper: `<text:width>` is text that is cut, `|width` cuts the span.
fn show_span(span: &Span) -> String {
    let mut out = String::new();
    for piece in &span.pieces {
        match piece {
            Piece::Plain(text) => out.push_str(text),
            Piece::Clipped { text, width } => out.push_str(&format!("<{text}:{width}>")),
        }
    }
    if let Some(width) = span.clip {
        out.push_str(&format!("|{width}"));
    }
    out
}

fn show_line(line: &Line) -> String {
    let mut out = String::new();
    for span in &line.spans {
        out.push_str(&show_span(span));
    }
    out
}

fn show(panel: &Option<Panel>) -> Vec<String> {
    panel.as_ref().unwrap().lines.iter().map(show_line).collect()
}

fn tones(panel: &Option<Panel>) -> Vec<Tone> {
    panel.as_ref().unwrap().lines.iter().map(|l| l.spans[0].tone).collect()
}

fn step(text: &str, status: StepStatus, elapsed: &str) -> PlanStep {
    PlanStep { text: text.to_string(), status, elapsed: elapsed.to_string() }
}

fn plan() -> PlanSnapshot {
    PlanSnapshot {
        is_empty: false,
        pending: 1,
        in_progress: 1,
        completed: 1,
        progress_percent: 33,
        explanation: Some("why".to_string()),
        steps: vec![
            step("read", StepStatus::Completed, "2m"),
            step("write", StepStatus::InProgress, ""),
            step("ship", StepStatus::Pending, ""),
        ],
    }
}

#[test]
fn plan_panel_shows_its_steps() {
    let mut s = state(SidebarFocus::Plan);
    s.plan = Some(plan());
    let panel = render_sidebar_plan(area(30, 10), &s);
    assert_eq!(
        show(&panel),
        vec!["33% complete (1/3)", "why|26", "[x] read (2m)|26", "[~] write|26", "[ ] ship|26"]
    );
    assert_eq!(
        tones(&panel),
        vec![
            Tone::PlanProgress,
            Tone::PlanExplanation,
            Tone::PlanCompleted,
            Tone::PlanInProgress,
            Tone::PlanPending,
        ]
    );
    let panel = panel.unwrap();
    assert!(panel.lines[0].spans[0].bold);
    assert!(!panel.lines[0].spans[1].bold);
    assert_eq!(panel.lines[0].spans[1].tone, Tone::PlanSummary);
    assert_eq!(show_span(&panel.title), " <Plan:26> ");
    assert!(panel.title.bold);
    assert_eq!(panel.title.tone, Tone::SectionTitle);
    assert_eq!(panel.area, area(30, 10));
}

#[test]
fn plan_panel_counts_what_does_not_fit() {
    let mut s = state(SidebarFocus::Plan);
    s.plan = Some(plan());
    // Three rows of chrome, two of heading: one step fits.
    let panel = render_sidebar_plan(area(30, 6), &s);
    assert_eq!(
        show(&panel),
        vec!["33% complete (1/3)", "why|26", "[x] read (2m)|26", "+2 more steps"]
    );
    let panel = render_sidebar_plan(area(30, 4), &s);
    assert_eq!(show(&panel), vec!["33% complete (1/3)", "why|26", "+3 more steps"]);
    assert!(render_sidebar_plan(area(30, 2), &s).is_none());
}

#[test]
fn plan_panel_without_a_plan() {
    let mut s = state(SidebarFocus::Plan);
    assert_eq!(show(&render_sidebar_plan(area(30, 6), &s)), vec!["Plan state updating..."]);
    let mut empty = plan();
    empty.is_empty = true;
    s.plan = Some(empty);
    assert_eq!(show(&render_sidebar_plan(area(30, 6), &s)), vec!["No active plan"]);
}

fn todo(id: u32, content: &str, status: StepStatus) -> TodoItem {
    TodoItem { id, content: content.to_string(), status }
}

#[test]
fn todo_panel_shows_and_counts() {
    let mut s = state(SidebarFocus::Todos);
    s.todos = Some(TodoSnapshot {
        items: vec![
            todo(1, "a", StepStatus::Completed),
            todo(2, "b", StepStatus::InProgress),
            todo(13, "c", StepStatus::Pending),
        ],
        completion_pct: 33,
    });
    let panel = render_sidebar_todos(area(24, 8), &s);
    assert_eq!(
        show(&panel),
        vec!["33% complete (1/3)", "[x] #1 a|20", "[~] #2 b|20", "[ ] #13 c|20"]
    );
    assert_eq!(
        tones(&panel),
        vec![Tone::StatusSuccess, Tone::StatusSuccess, Tone::StatusWarning, Tone::TextMuted]
    );
    let panel = render_sidebar_todos(area(24, 5), &s);
    assert_eq!(show(&panel), vec!["33% complete (1/3)", "[x] #1 a|20", "+2 more todos"]);
}

#[test]
fn todo_panel_without_todos() {
    let mut s = state(SidebarFocus::Todos);
    assert_eq!(show(&render_sidebar_todos(area(24, 8), &s)), vec!["Todo list updating..."]);
    s.todos = Some(TodoSnapshot { items: Vec::new(), completion_pct: 0 });
    assert_eq!(show(&render_sidebar_todos(area(24, 8), &s)), vec!["No todos"]);
    assert!(render_sidebar_todos(area(24, 2), &s).is_none());
}

fn task(id: &str, status: &str, duration: Option<&str>) -> TaskEntry {
    TaskEntry {
        id: id.to_string(),
        status: status.to_string(),
        prompt_summary: format!("about {id}"),
        duration: duration.map(str::to_string),
    }
}

#[test]
fn task_panel_shows_two_lines_for_each() {
    let mut s = state(SidebarFocus::Tasks);
    s.tasks = TaskPanel {
        turn_id: Some("turn-1234567890".to_string()),
        turn_status: None,
        tasks: vec![task("t1", "running", Some("1.5s")), task("t2", "queued", None)],
    };
    let panel = render_sidebar_tasks(area(24, 10), &s);
    assert_eq!(
        show(&panel),
        vec![
            "turn <turn-1234567890:12> (unknown)|20",
            "1 running / 2",
            "<t1:10> running 1.5s|20",
            "  <about t1:18>",
            "<t2:10> queued -|20",
            "  <about t2:18>",
        ]
    );
    assert_eq!(
        tones(&panel),
        vec![
            Tone::Sky,
            Tone::Sky,
            Tone::StatusWarning,
            Tone::TextDim,
            Tone::TextMuted,
            Tone::TextDim,
        ]
    );
    // One row is left for tasks: the other is not mentioned.
    let panel = render_sidebar_tasks(area(24, 6), &s);
    assert_eq!(show(&panel).len(), 4);
}

#[test]
fn task_panel_tones() {
    let mut s = state(SidebarFocus::Tasks);
    for (status, tone) in [
        ("queued", Tone::TextMuted),
        ("running", Tone::StatusWarning),
        ("completed", Tone::StatusSuccess),
        ("failed", Tone::StatusError),
        ("canceled", Tone::TextDim),
        ("odd", Tone::TextMuted),
    ] {
        s.tasks.tasks = vec![task("t", status, None)];
        assert_eq!(tones(&render_sidebar_tasks(area(24, 10), &s))[1], tone);
    }
}

#[test]
fn task_panel_without_tasks() {
    let mut s = state(SidebarFocus::Tasks);
    assert_eq!(show(&render_sidebar_tasks(area(24, 8), &s)), vec!["No tasks"]);
    s.tasks.turn_id = Some("t".to_string());
    s.tasks.turn_status = Some("idle".to_string());
    assert_eq!(
        show(&render_sidebar_tasks(area(24, 8), &s)),
        vec!["turn <t:12> (idle)|20", "No tasks"]
    );
}

fn agent(id: &str, status: SubAgentStatus, role: Option<&str>) -> AgentEntry {
    AgentEntry {
        agent_id: id.to_string(),
        agent_type: "general".to_string(),
        role: role.map(str::to_string),
        objective: format!("goal of {id}"),
        status,
        steps_taken: 7,
    }
}

fn word(id: &str, msg: &str) -> (String, String) {
    (id.to_string(), msg.to_string())
}

#[test]
fn agents_without_a_report_come_first() {
    let mut s = state(SidebarFocus::Agents);
    s.agents = AgentPanel {
        cache: vec![
            agent("a", SubAgentStatus::Running, Some("scout")),
            agent("b", SubAgentStatus::Completed, None),
        ],
        progress: vec![word("a", "working"), word("c", "booting")],
    };
    let panel = render_sidebar_subagents(area(24, 12), &s);
    assert_eq!(
        show(&panel),
        vec![
            "2 running / 3",
            "<c:10> starting|20",
            "  <booting:18>",
            "<a:10> general/scout running (7 steps)|20",
            "  <goal of a:18>",
            "<b:10> general/default done (7 steps)|20",
            "  <goal of b:18>",
        ]
    );
    let panel = render_sidebar_subagents(area(24, 6), &s);
    assert_eq!(
        show(&panel),
        vec![
            "2 running / 3",
            "<c:10> starting|20",
            "  <booting:18>",
            "<a:10> general/scout running (7 steps)|20",
            "  <goal of a:18>",
            "+1 more agents",
        ]
    );
}

#[test]
fn agents_that_only_sent_word_are_seen_at_once() {
    let mut s = state(SidebarFocus::Agents);
    assert_eq!(show(&render_sidebar_subagents(area(24, 8), &s)), vec!["No agents"]);
    s.agents.progress = vec![word("x", "m"), word("y", "n")];
    let panel = render_sidebar_subagents(area(24, 4), &s);
    assert_eq!(show(&panel), vec!["2 running / 2", "+2 more agents"]);
}

#[test]
fn agents_that_are_done() {
    let mut s = state(SidebarFocus::Agents);
    s.agents.cache = vec![
        agent("a", SubAgentStatus::Interrupted("i".to_string()), None),
        agent("b", SubAgentStatus::Failed("f".to_string()), None),
        agent("c", SubAgentStatus::Cancelled, None),
        agent("d", SubAgentStatus::Completed, None),
    ];
    let panel = render_sidebar_subagents(area(24, 20), &s);
    assert_eq!(show(&panel)[0], "4 done");
    assert_eq!(
        tones(&panel),
        vec![
            Tone::StatusSuccess,
            Tone::StatusWarning,
            Tone::TextDim,
            Tone::StatusError,
            Tone::TextDim,
            Tone::TextMuted,
            Tone::TextDim,
            Tone::StatusSuccess,
            Tone::TextDim,
        ]
    );
    assert_eq!(show(&panel)[1], "<a:10> general/default interrupted (7 steps)|20");
    assert_eq!(show(&panel)[3], "<b:10> general/default failed (7 steps)|20");
    assert_eq!(show(&panel)[5], "<c:10> general/default cancelled (7 steps)|20");
}

#[test]
fn titles_are_cut_to_the_width() {
    assert!(render_sidebar_section(area(3, 9), "T", Vec::new()).is_none());
    assert!(render_sidebar_section(area(9, 2), "T", Vec::new()).is_none());
    let narrow = render_sidebar_section(area(4, 3), "Title", Vec::new()).unwrap();
    assert_eq!(show_span(&narrow.title), " <Title:1> ");
    let wide = render_sidebar_section(area(6, 3), "Title", Vec::new()).unwrap();
    assert_eq!(show_span(&wide.title), " <Title:2> ");
}

#[test]
fn a_small_sidebar_is_hidden() {
    assert!(render_sidebar(area(23, 50), &state(SidebarFocus::Auto)).is_empty());
    assert!(render_sidebar(area(50, 7), &state(SidebarFocus::Plan)).is_empty());
    assert_eq!(render_sidebar(area(24, 8), &state(SidebarFocus::Plan)).len(), 1);
}

#[test]
fn the_focus_has_the_whole_area() {
    for (focus, title) in [
        (SidebarFocus::Plan, " <Plan:20> "),
        (SidebarFocus::Todos, " <Todos:20> "),
        (SidebarFocus::Tasks, " <Tasks:20> "),
        (SidebarFocus::Agents, " <Agents:20> "),
    ] {
        let panels = render_sidebar(area(24, 8), &state(focus));
        assert_eq!(panels.len(), 1);
        assert_eq!(panels[0].area, area(24, 8));
        assert_eq!(show_span(&panels[0].title), title);
    }
}

#[test]
fn all_panels_share_the_area() {
    let panels = render_sidebar(area(24, 40), &state(SidebarFocus::Auto));
    assert_eq!(panels.len(), 4);
    let heights: Vec<u16> = panels.iter().map(|p| p.area.height).collect();
    assert_eq!(heights, vec![10, 10, 10, 10]);
    let tops: Vec<u16> = panels.iter().map(|p| p.area.y).collect();
    assert_eq!(tops, vec![2, 12, 22, 32]);
    for panel in &panels {
        assert_eq!(panel.area.x, 3);
        assert_eq!(panel.area.width, 24);
    }
    assert_eq!(show_span(&panels[3].title), " <Agents:20> ");
}

#[test]
fn rows_lie_within_the_area_from_top_to_bottom() {
    for height in (8u16..300).chain([999, 1000, 4001, 65_533]) {
        let mut free = 2;
        for panel in render_sidebar(area(30, height), &state(SidebarFocus::Auto)) {
            assert!(panel.area.y >= free);
            free = panel.area.y + panel.area.height;
            assert!(free <= 2 + height);
        }
    }
}

#[test]
fn a_row_that_is_too_low_shows_nothing() {
    let rows: Vec<Area> = vec![area(24, 2), area(24, 5), area(24, 0), area(24, 3)];
    let panels = render_sidebar_rows(&rows, &state(SidebarFocus::Auto));
    let titles: Vec<String> = panels.iter().map(|p| show_span(&p.title)).collect();
    assert_eq!(titles, vec![" <Todos:20> ", " <Agents:20> "]);
}
