//! Sidebar panels: plan, todos, tasks and agents.
//!
//! The sidebar stands to the right of the transcript when the width allows it.
//! A panel is made of lines, a line of spans. How text is cut to a width is up
//! to the renderer: a span says what is cut, and to which width.

use vstd::prelude::*;
use vstd::string::*;

use crate::layout::{can_split_into, is_row_of, split_rows, top_to_bottom, Area, Share};
use crate::text::{decimal, push_decimal, same_text};

verus! {

// === Text on the screen ===

/// What a span of text is about: the renderer gives it a colour.
#[derive(Debug, Clone, Copy, PartialEq, Eq, Structural)]
pub enum Tone {
    PlanSummary,
    PlanProgress,
    PlanExplanation,
    PlanPending,
    PlanInProgress,
    PlanCompleted,
    TextMuted,
    TextDim,
    Sky,
    StatusSuccess,
    StatusWarning,
    StatusError,
    SectionTitle,
}

/// A part of a span.
#[derive(Debug)]
pub enum Piece {
    /// The text as it is.
    Plain(String),
    /// The text, cut to a width.
    Clipped { text: String, width: usize },
}

/// Some text in one style. Its pieces follow each other, and the whole is cut
/// to the width in `clip`, if there is one.
#[derive(Debug)]
pub struct Span {
    pub pieces: Vec<Piece>,
    pub clip: Option<usize>,
    pub tone: Tone,
    pub bold: bool,
}

/// Spans side by side.
#[derive(Debug)]
pub struct Line {
    pub spans: Vec<Span>,
}

/// A panel with its place on the screen.
#[derive(Debug)]
pub struct Panel {
    pub area: Area,
    pub title: Span,
    pub lines: Vec<Line>,
}

/// The contents of a [`Piece`].
pub enum PieceView {
    Plain(Seq<char>),
    Clipped { text: Seq<char>, width: usize },
}

/// The contents of a [`Span`].
#[verifier::ext_equal]
pub struct SpanView {
    pub pieces: Seq<PieceView>,
    pub clip: Option<usize>,
    pub tone: Tone,
    pub bold: bool,
}

/// The contents of a [`Panel`].
#[verifier::ext_equal]
pub struct PanelView {
    pub area: Area,
    pub title: SpanView,
    pub lines: Seq<Seq<SpanView>>,
}

impl View for Piece {
    type V = PieceView;

    open spec fn view(&self) -> PieceView {
        match self {
            Piece::Plain(text) => PieceView::Plain(text@),
            Piece::Clipped { text, width } => PieceView::Clipped { text: text@, width: *width },
        }
    }
}

impl View for Span {
    type V = SpanView;

    open spec fn view(&self) -> SpanView {
        SpanView {
            pieces: self.pieces@.map_values(|p: Piece| p@),
            clip: self.clip,
            tone: self.tone,
            bold: self.bold,
        }
    }
}

impl View for Line {
    type V = Seq<SpanView>;

    open spec fn view(&self) -> Seq<SpanView> {
        self.spans@.map_values(|s: Span| s@)
    }
}

/// The contents of a list of lines.
pub open spec fn line_views(lines: Seq<Line>) -> Seq<Seq<SpanView>> {
    lines.map_values(|l: Line| l@)
}

impl View for Panel {
    type V = PanelView;

    open spec fn view(&self) -> PanelView {
        PanelView { area: self.area, title: self.title@, lines: line_views(self.lines@) }
    }
}

/// A text in a tone.
pub open spec fn toned(text: Seq<char>, tone: Tone) -> SpanView {
    SpanView { pieces: seq![PieceView::Plain(text)], clip: None, tone, bold: false }
}

/// A text in a tone and in bold face.
pub open spec fn strong(text: Seq<char>, tone: Tone) -> SpanView {
    SpanView { pieces: seq![PieceView::Plain(text)], clip: None, tone, bold: true }
}

/// A text in a tone, cut to a width.
pub open spec fn cut(text: Seq<char>, width: usize, tone: Tone) -> SpanView {
    SpanView { pieces: seq![PieceView::Plain(text)], clip: Some(width), tone, bold: false }
}

/// A text, cut to a width, with a text before and one behind, the whole cut to
/// a width if one is given.
pub open spec fn framed(
    before: Seq<char>,
    text: Seq<char>,
    width: usize,
    after: Seq<char>,
    clip: Option<usize>,
    tone: Tone,
) -> SpanView {
    SpanView {
        pieces: seq![
            PieceView::Plain(before),
            PieceView::Clipped { text, width },
            PieceView::Plain(after),
        ],
        clip,
        tone,
        bold: false,
    }
}

fn span(text: String, clip: Option<usize>, tone: Tone, bold: bool) -> (r: Span)
    ensures
        r@ == (SpanView { pieces: seq![PieceView::Plain(text@)], clip, tone, bold }),
{
    let mut pieces: Vec<Piece> = Vec::new();
    pieces.push(Piece::Plain(text));
    let r = Span { pieces, clip, tone, bold };
    assert(r@.pieces =~= seq![PieceView::Plain(text@)]);
    r
}

fn framed_span(
    before: &str,
    text: &str,
    width: usize,
    after: String,
    clip: Option<usize>,
    tone: Tone,
) -> (r: Span)
    ensures
        r@ == framed(before@, text@, width, after@, clip, tone),
{
    let mut pieces: Vec<Piece> = Vec::new();
    pieces.push(Piece::Plain(before.to_string()));
    pieces.push(Piece::Clipped { text: text.to_string(), width });
    pieces.push(Piece::Plain(after));
    let r = Span { pieces, clip, tone, bold: false };
    assert(r@.pieces =~= framed(before@, text@, width, after@, clip, tone).pieces);
    r
}

/// Adds a line with one span.
fn push_line(lines: &mut Vec<Line>, span: Span)
    ensures
        line_views(final(lines)@) == line_views(old(lines)@).push(seq![span@]),
{
    let ghost before = lines@;
    let mut spans: Vec<Span> = Vec::new();
    spans.push(span);
    let line = Line { spans };
    assert(line@ =~= seq![span@]);
    lines.push(line);
    assert(line_views(lines@) =~= line_views(before).push(seq![span@]));
}

/// Adds a line with two spans.
fn push_line_of_two(lines: &mut Vec<Line>, first: Span, second: Span)
    ensures
        line_views(final(lines)@) == line_views(old(lines)@).push(seq![first@, second@]),
{
    let ghost before = lines@;
    let mut spans: Vec<Span> = Vec::new();
    spans.push(first);
    spans.push(second);
    let line = Line { spans };
    assert(line@ =~= seq![first@, second@]);
    lines.push(line);
    assert(line_views(lines@) =~= line_views(before).push(seq![first@, second@]));
}

// === Room ===

/// The cells of a line that text can fill, and at least one.
pub open spec fn text_width(area: Area) -> usize {
    if area.width > 5 {
        (area.width - 4) as usize
    } else {
        1
    }
}

/// The cells of an indented line that text can fill, and at least one.
pub open spec fn indented_width(area: Area) -> usize {
    if area.width > 7 {
        (area.width - 6) as usize
    } else {
        1
    }
}

/// How many entries fit under so many lines of heading.
pub open spec fn room(area: Area, heading: nat) -> nat {
    if area.height >= 3 + heading {
        (area.height - 3 - heading) as nat
    } else {
        0
    }
}

/// The first `n` of a list, or all.
pub open spec fn first_of<T>(s: Seq<T>, n: nat) -> Seq<T> {
    if n < s.len() {
        s.take(n as int)
    } else {
        s
    }
}

/// How many of a list are not among its first `n`.
pub open spec fn beyond<T>(s: Seq<T>, n: nat) -> nat {
    if n < s.len() {
        (s.len() - n) as nat
    } else {
        0
    }
}

fn width_for_text(area: Area) -> (r: usize)
    ensures
        r == text_width(area),
{
    if area.width > 5 {
        (area.width - 4) as usize
    } else {
        1
    }
}

fn width_for_indented(area: Area) -> (r: usize)
    ensures
        r == indented_width(area),
{
    if area.width > 7 {
        (area.width - 6) as usize
    } else {
        1
    }
}

fn room_under(area: Area, heading: usize) -> (r: usize)
    ensures
        r == room(area, heading as nat),
{
    let height: usize = area.height as usize;
    if height >= 3 && height - 3 >= heading {
        height - 3 - heading
    } else {
        0
    }
}

/// The line that says how many more there are; none if there are no more.
pub open spec fn more_line(n: nat, what: Seq<char>, tone: Tone) -> Seq<Seq<SpanView>> {
    if n > 0 {
        seq![seq![toned("+"@ + decimal(n) + " more "@ + what, tone)]]
    } else {
        Seq::empty()
    }
}

fn push_more_line(lines: &mut Vec<Line>, n: usize, what: &str, tone: Tone)
    ensures
        line_views(final(lines)@) == line_views(old(lines)@) + more_line(n as nat, what@, tone),
{
    let ghost before = line_views(lines@);
    if n > 0 {
        let mut text: String = "+".to_string();
        push_decimal(&mut text, n as u64);
        text.append(" more ");
        text.append(what);
        push_line(lines, span(text, None, tone, false));
    }
    assert(line_views(lines@) =~= before + more_line(n as nat, what@, tone));
}

/// The heading that shows how much is done: a percentage, and `completed` of
/// `total`.
pub open spec fn progress_heading(
    percent: u8,
    completed: nat,
    total: nat,
    tone: Tone,
    rest: Tone,
) -> Seq<SpanView> {
    seq![
        strong(decimal(percent as nat) + "%"@, tone),
        toned(" complete ("@ + decimal(completed) + "/"@ + decimal(total) + ")"@, rest),
    ]
}

fn push_progress_heading(
    lines: &mut Vec<Line>,
    percent: u8,
    completed: usize,
    total: usize,
    tone: Tone,
    rest: Tone,
)
    ensures
        line_views(final(lines)@) == line_views(old(lines)@).push(
            progress_heading(percent, completed as nat, total as nat, tone, rest),
        ),
{
    let mut first: String = String::new();
    push_decimal(&mut first, percent as u64);
    first.append("%");
    assert(first@ =~= decimal(percent as nat) + "%"@);
    let mut second: String = " complete (".to_string();
    push_decimal(&mut second, completed as u64);
    second.append("/");
    push_decimal(&mut second, total as u64);
    second.append(")");
    push_line_of_two(lines, span(first, None, tone, true), span(second, None, rest, false));
}

// === Plan ===

/// How far a step of the plan or a todo is.
#[derive(Debug, Clone, Copy, PartialEq, Eq, Structural)]
pub enum StepStatus {
    Pending,
    InProgress,
    Completed,
}

/// A step of the plan.
#[derive(Debug)]
pub struct PlanStep {
    pub text: String,
    pub status: StepStatus,
    /// How long it has taken, for display; empty if that is not known.
    pub elapsed: String,
}

/// The plan at a moment.
#[derive(Debug)]
pub struct PlanSnapshot {
    pub is_empty: bool,
    pub pending: usize,
    pub in_progress: usize,
    pub completed: usize,
    pub progress_percent: u8,
    pub explanation: Option<String>,
    pub steps: Vec<PlanStep>,
}

/// The box before a step or a todo.
pub open spec fn step_box(status: StepStatus) -> Seq<char> {
    match status {
        StepStatus::Pending => "[ ]"@,
        StepStatus::InProgress => "[~]"@,
        StepStatus::Completed => "[x]"@,
    }
}

/// The line of a step.
pub open spec fn step_span(step: PlanStep, area: Area) -> SpanView {
    let text = step_box(step.status) + " "@ + step.text@;
    cut(
        if step.elapsed@.len() > 0 {
            text + " ("@ + step.elapsed@ + ")"@
        } else {
            text
        },
        text_width(area),
        match step.status {
            StepStatus::Pending => Tone::PlanPending,
            StepStatus::InProgress => Tone::PlanInProgress,
            StepStatus::Completed => Tone::PlanCompleted,
        },
    )
}

/// The lines of the steps.
pub open spec fn step_lines(steps: Seq<PlanStep>, area: Area) -> Seq<Seq<SpanView>> {
    steps.map_values(|s: PlanStep| seq![step_span(s, area)])
}

/// The lines above the steps.
pub open spec fn plan_heading(plan: PlanSnapshot, area: Area) -> Seq<Seq<SpanView>> {
    let progress = seq![
        progress_heading(
            plan.progress_percent,
            plan.completed as nat,
            (plan.pending + plan.in_progress + plan.completed) as nat,
            Tone::PlanProgress,
            Tone::PlanSummary,
        ),
    ];
    match plan.explanation {
        Some(e) => progress.push(seq![cut(e@, text_width(area), Tone::PlanExplanation)]),
        None => progress,
    }
}

/// The lines of the plan panel; `plan` is none while the plan is being changed.
pub open spec fn plan_lines(plan: Option<PlanSnapshot>, area: Area) -> Seq<Seq<SpanView>> {
    match plan {
        None => seq![seq![toned("Plan state updating..."@, Tone::PlanSummary)]],
        Some(plan) => if plan.is_empty {
            seq![seq![toned("No active plan"@, Tone::PlanSummary)]]
        } else {
            let heading = plan_heading(plan, area);
            let n = room(area, heading.len());
            heading + step_lines(first_of(plan.steps@, n), area) + more_line(
                beyond(plan.steps@, n),
                "steps"@,
                Tone::PlanSummary,
            )
        },
    }
}

/// The steps of a plan can be counted.
pub open spec fn plan_fits(plan: Option<PlanSnapshot>) -> bool {
    plan matches Some(p) ==> p.pending + p.in_progress + p.completed <= usize::MAX
}

fn push_step(lines: &mut Vec<Line>, step: &PlanStep, area: Area)
    ensures
        line_views(final(lines)@) == line_views(old(lines)@).push(seq![step_span(*step, area)]),
{
    let (mark, tone): (&str, Tone) = match step.status {
        StepStatus::Pending => ("[ ]", Tone::PlanPending),
        StepStatus::InProgress => ("[~]", Tone::PlanInProgress),
        StepStatus::Completed => ("[x]", Tone::PlanCompleted),
    };
    let mut text: String = mark.to_string();
    text.append(" ");
    text.append(step.text.as_str());
    if !step.elapsed.as_str().is_empty() {
        text.append(" (");
        text.append(step.elapsed.as_str());
        text.append(")");
    }
    push_line(lines, span(text, Some(width_for_text(area)), tone, false));
}

fn plan_panel_lines(plan: &Option<PlanSnapshot>, area: Area) -> (r: Vec<Line>)
    requires
        plan_fits(*plan),
    ensures
        line_views(r@) == plan_lines(*plan, area),
{
    let mut lines: Vec<Line> = Vec::new();
    let plan: &PlanSnapshot = match plan {
        None => {
            push_line(
                &mut lines,
                span("Plan state updating...".to_string(), None, Tone::PlanSummary, false),
            );
            assert(line_views(lines@) =~= plan_lines(None, area));
            return lines;
        },
        Some(plan) => plan,
    };
    if plan.is_empty {
        push_line(
            &mut lines,
            span("No active plan".to_string(), None, Tone::PlanSummary, false),
        );
        assert(line_views(lines@) =~= plan_lines(Some(*plan), area));
        return lines;
    }
    let total: usize = plan.pending + plan.in_progress + plan.completed;
    push_progress_heading(
        &mut lines,
        plan.progress_percent,
        plan.completed,
        total,
        Tone::PlanProgress,
        Tone::PlanSummary,
    );
    if let Some(e) = &plan.explanation {
        push_line(
            &mut lines,
            span(e.clone(), Some(width_for_text(area)), Tone::PlanExplanation, false),
        );
    }
    let ghost heading = plan_heading(*plan, area);
    assert(line_views(lines@) =~= heading);
    let n: usize = room_under(area, lines.len());
    let ghost shown = step_lines(first_of(plan.steps@, n as nat), area);
    let mut i: usize = 0;
    assert(line_views(lines@) =~= heading + shown.take(0));
    while i < n && i < plan.steps.len()
        invariant
            i <= n,
            i <= plan.steps@.len(),
            shown == step_lines(first_of(plan.steps@, n as nat), area),
            line_views(lines@) == heading + shown.take(i as int),
        decreases plan.steps@.len() - i,
    {
        push_step(&mut lines, &plan.steps[i], area);
        assert(heading + shown.take(i + 1) =~= (heading + shown.take(i as int)).push(
            shown[i as int],
        ));
        i = i + 1;
    }
    assert(shown.take(i as int) =~= shown);
    let more: usize = if n < plan.steps.len() {
        plan.steps.len() - n
    } else {
        0
    };
    push_more_line(&mut lines, more, "steps", Tone::PlanSummary);
    lines
}

// === Todos ===

/// A todo.
#[derive(Debug)]
pub struct TodoItem {
    pub id: u32,
    pub content: String,
    pub status: StepStatus,
}

/// The todos at a moment.
#[derive(Debug)]
pub struct TodoSnapshot {
    pub items: Vec<TodoItem>,
    pub completion_pct: u8,
}

/// How many todos are completed.
pub open spec fn completed_count(items: Seq<TodoItem>) -> nat
    decreases items.len(),
{
    if items.len() == 0 {
        0
    } else if items.last().status == StepStatus::Completed {
        completed_count(items.drop_last()) + 1
    } else {
        completed_count(items.drop_last())
    }
}

/// The line of a todo.
pub open spec fn todo_span(item: TodoItem, area: Area) -> SpanView {
    cut(
        step_box(item.status) + " #"@ + decimal(item.id as nat) + " "@ + item.content@,
        text_width(area),
        match item.status {
            StepStatus::Pending => Tone::TextMuted,
            StepStatus::InProgress => Tone::StatusWarning,
            StepStatus::Completed => Tone::StatusSuccess,
        },
    )
}

/// The lines of the todos.
pub open spec fn todo_item_lines(items: Seq<TodoItem>, area: Area) -> Seq<Seq<SpanView>> {
    items.map_values(|i: TodoItem| seq![todo_span(i, area)])
}

/// The lines of the todo panel; `todos` is none while they are being changed.
pub open spec fn todo_lines(todos: Option<TodoSnapshot>, area: Area) -> Seq<Seq<SpanView>> {
    match todos {
        None => seq![seq![toned("Todo list updating..."@, Tone::TextMuted)]],
        Some(todos) => if todos.items@.len() == 0 {
            seq![seq![toned("No todos"@, Tone::TextMuted)]]
        } else {
            let n = room(area, 1);
            seq![
                progress_heading(
                    todos.completion_pct,
                    completed_count(todos.items@),
                    todos.items@.len(),
                    Tone::StatusSuccess,
                    Tone::TextMuted,
                ),
            ] + todo_item_lines(first_of(todos.items@, n), area) + more_line(
                beyond(todos.items@, n),
                "todos"@,
                Tone::TextMuted,
            )
        },
    }
}

fn push_todo(lines: &mut Vec<Line>, item: &TodoItem, area: Area)
    ensures
        line_views(final(lines)@) == line_views(old(lines)@).push(seq![todo_span(*item, area)]),
{
    let (mark, tone): (&str, Tone) = match item.status {
        StepStatus::Pending => ("[ ]", Tone::TextMuted),
        StepStatus::InProgress => ("[~]", Tone::StatusWarning),
        StepStatus::Completed => ("[x]", Tone::StatusSuccess),
    };
    let mut text: String = mark.to_string();
    text.append(" #");
    push_decimal(&mut text, item.id as u64);
    text.append(" ");
    text.append(item.content.as_str());
    push_line(lines, span(text, Some(width_for_text(area)), tone, false));
}

fn count_completed(items: &Vec<TodoItem>) -> (r: usize)
    ensures
        r == completed_count(items@),
{
    let mut n: usize = 0;
    let mut i: usize = 0;
    while i < items.len()
        invariant
            i <= items@.len(),
            n <= i,
            n == completed_count(items@.take(i as int)),
        decreases items@.len() - i,
    {
        assert(items@.take(i + 1).drop_last() =~= items@.take(i as int));
        if items[i].status == StepStatus::Completed {
            n = n + 1;
        }
        i = i + 1;
    }
    assert(items@.take(items@.len() as int) =~= items@);
    n
}

fn todo_panel_lines(todos: &Option<TodoSnapshot>, area: Area) -> (r: Vec<Line>)
    ensures
        line_views(r@) == todo_lines(*todos, area),
{
    let mut lines: Vec<Line> = Vec::new();
    let todos: &TodoSnapshot = match todos {
        None => {
            push_line(
                &mut lines,
                span("Todo list updating...".to_string(), None, Tone::TextMuted, false),
            );
            assert(line_views(lines@) =~= todo_lines(None, area));
            return lines;
        },
        Some(todos) => todos,
    };
    let total: usize = todos.items.len();
    if total == 0 {
        push_line(&mut lines, span("No todos".to_string(), None, Tone::TextMuted, false));
        assert(line_views(lines@) =~= todo_lines(Some(*todos), area));
        return lines;
    }
    push_progress_heading(
        &mut lines,
        todos.completion_pct,
        count_completed(&todos.items),
        total,
        Tone::StatusSuccess,
        Tone::TextMuted,
    );
    let ghost heading = line_views(lines@);
    let n: usize = room_under(area, 1);
    let ghost shown = todo_item_lines(first_of(todos.items@, n as nat), area);
    let mut i: usize = 0;
    assert(line_views(lines@) =~= heading + shown.take(0));
    while i < n && i < todos.items.len()
        invariant
            i <= n,
            i <= todos.items@.len(),
            shown == todo_item_lines(first_of(todos.items@, n as nat), area),
            line_views(lines@) == heading + shown.take(i as int),
        decreases todos.items@.len() - i,
    {
        push_todo(&mut lines, &todos.items[i], area);
        assert(heading + shown.take(i + 1) =~= (heading + shown.take(i as int)).push(
            shown[i as int],
        ));
        i = i + 1;
    }
    assert(shown.take(i as int) =~= shown);
    let more: usize = if n < total {
        total - n
    } else {
        0
    };
    push_more_line(&mut lines, more, "todos", Tone::TextMuted);
    assert(line_views(lines@) =~= todo_lines(Some(*todos), area));
    lines
}

// === Tasks ===

/// A background task.
#[derive(Debug)]
pub struct TaskEntry {
    pub id: String,
    pub status: String,
    pub prompt_summary: String,
    /// How long it has taken, for display, if that is known.
    pub duration: Option<String>,
}

/// The background tasks, and the turn that is running.
#[derive(Debug)]
pub struct TaskPanel {
    pub turn_id: Option<String>,
    pub turn_status: Option<String>,
    pub tasks: Vec<TaskEntry>,
}

/// How many tasks are running.
pub open spec fn running_count(tasks: Seq<TaskEntry>) -> nat
    decreases tasks.len(),
{
    if tasks.len() == 0 {
        0
    } else if tasks.last().status@ == "running"@ {
        running_count(tasks.drop_last()) + 1
    } else {
        running_count(tasks.drop_last())
    }
}

/// The tone of a task.
pub open spec fn task_tone(status: Seq<char>) -> Tone {
    if status == "running"@ {
        Tone::StatusWarning
    } else if status == "completed"@ {
        Tone::StatusSuccess
    } else if status == "failed"@ {
        Tone::StatusError
    } else if status == "canceled"@ {
        Tone::TextDim
    } else {
        Tone::TextMuted
    }
}

/// The first line of a task.
pub open spec fn task_span(task: TaskEntry, area: Area) -> SpanView {
    framed(
        ""@,
        task.id@,
        10,
        " "@ + task.status@ + " "@ + match task.duration {
            Some(d) => d@,
            None => "-"@,
        },
        Some(text_width(area)),
        task_tone(task.status@),
    )
}

/// An indented line with a text that is cut.
pub open spec fn detail_span(text: Seq<char>, area: Area) -> SpanView {
    framed("  "@, text, indented_width(area), ""@, None, Tone::TextDim)
}

/// The lines of the tasks: two for each.
pub open spec fn task_entry_lines(tasks: Seq<TaskEntry>, area: Area) -> Seq<Seq<SpanView>>
    decreases tasks.len(),
{
    if tasks.len() == 0 {
        Seq::empty()
    } else {
        task_entry_lines(tasks.drop_last(), area).push(
            seq![task_span(tasks.last(), area)],
        ).push(seq![detail_span(tasks.last().prompt_summary@, area)])
    }
}

/// The line of the running turn; none if there is none.
pub open spec fn turn_lines(panel: TaskPanel, area: Area) -> Seq<Seq<SpanView>> {
    match panel.turn_id {
        Some(id) => seq![
            seq![
                framed(
                    "turn "@,
                    id@,
                    12,
                    " ("@ + match panel.turn_status {
                        Some(s) => s@,
                        None => "unknown"@,
                    } + ")"@,
                    Some(text_width(area)),
                    Tone::Sky,
                ),
            ],
        ],
        None => Seq::empty(),
    }
}

/// The heading that shows how many of `total` are running.
pub open spec fn running_heading(running: nat, total: nat) -> Seq<SpanView> {
    seq![
        strong(decimal(running) + " running"@, Tone::Sky),
        toned(" / "@ + decimal(total), Tone::TextMuted),
    ]
}

/// The lines of the task panel.
pub open spec fn task_lines(panel: TaskPanel, area: Area) -> Seq<Seq<SpanView>> {
    let turn = turn_lines(panel, area);
    if panel.tasks@.len() == 0 {
        turn.push(seq![toned("No tasks"@, Tone::TextMuted)])
    } else {
        let heading = turn.push(
            running_heading(running_count(panel.tasks@), panel.tasks@.len()),
        );
        heading + task_entry_lines(first_of(panel.tasks@, room(area, heading.len())), area)
    }
}

fn push_running_heading(lines: &mut Vec<Line>, running: usize, total: usize)
    ensures
        line_views(final(lines)@) == line_views(old(lines)@).push(
            running_heading(running as nat, total as nat),
        ),
{
    let mut first: String = String::new();
    push_decimal(&mut first, running as u64);
    first.append(" running");
    assert(first@ =~= decimal(running as nat) + " running"@);
    let mut second: String = " / ".to_string();
    push_decimal(&mut second, total as u64);
    push_line_of_two(
        lines,
        span(first, None, Tone::Sky, true),
        span(second, None, Tone::TextMuted, false),
    );
}

fn tone_of_task(status: &str) -> (r: Tone)
    ensures
        r == task_tone(status@),
{
    if same_text(status, "running") {
        Tone::StatusWarning
    } else if same_text(status, "completed") {
        Tone::StatusSuccess
    } else if same_text(status, "failed") {
        Tone::StatusError
    } else if same_text(status, "canceled") {
        Tone::TextDim
    } else {
        Tone::TextMuted
    }
}

fn push_task(lines: &mut Vec<Line>, task: &TaskEntry, area: Area)
    ensures
        line_views(final(lines)@) == line_views(old(lines)@).push(
            seq![task_span(*task, area)],
        ).push(seq![detail_span(task.prompt_summary@, area)]),
{
    let mut after: String = " ".to_string();
    after.append(task.status.as_str());
    after.append(" ");
    match &task.duration {
        Some(d) => after.append(d.as_str()),
        None => after.append("-"),
    }
    push_line(
        lines,
        framed_span(
            "",
            task.id.as_str(),
            10,
            after,
            Some(width_for_text(area)),
            tone_of_task(task.status.as_str()),
        ),
    );
    push_detail(lines, task.prompt_summary.as_str(), area);
}

fn push_detail(lines: &mut Vec<Line>, text: &str, area: Area)
    ensures
        line_views(final(lines)@) == line_views(old(lines)@).push(
            seq![detail_span(text@, area)],
        ),
{
    push_line(
        lines,
        framed_span("  ", text, width_for_indented(area), "".to_string(), None, Tone::TextDim),
    );
}

fn count_running(tasks: &Vec<TaskEntry>) -> (r: usize)
    ensures
        r == running_count(tasks@),
{
    let mut n: usize = 0;
    let mut i: usize = 0;
    while i < tasks.len()
        invariant
            i <= tasks@.len(),
            n <= i,
            n == running_count(tasks@.take(i as int)),
        decreases tasks@.len() - i,
    {
        assert(tasks@.take(i + 1).drop_last() =~= tasks@.take(i as int));
        if same_text(tasks[i].status.as_str(), "running") {
            n = n + 1;
        }
        i = i + 1;
    }
    assert(tasks@.take(tasks@.len() as int) =~= tasks@);
    n
}

fn task_panel_lines(panel: &TaskPanel, area: Area) -> (r: Vec<Line>)
    ensures
        line_views(r@) == task_lines(*panel, area),
{
    let mut lines: Vec<Line> = Vec::new();
    if let Some(id) = &panel.turn_id {
        let mut after: String = " (".to_string();
        match &panel.turn_status {
            Some(status) => after.append(status.as_str()),
            None => after.append("unknown"),
        }
        after.append(")");
        push_line(
            &mut lines,
            framed_span("turn ", id.as_str(), 12, after, Some(width_for_text(area)), Tone::Sky),
        );
    }
    assert(line_views(lines@) =~= turn_lines(*panel, area));
    if panel.tasks.len() == 0 {
        push_line(&mut lines, span("No tasks".to_string(), None, Tone::TextMuted, false));
        return lines;
    }
    push_running_heading(&mut lines, count_running(&panel.tasks), panel.tasks.len());
    let ghost heading = line_views(lines@);
    let n: usize = room_under(area, lines.len());
    let ghost shown = first_of(panel.tasks@, n as nat);
    let mut i: usize = 0;
    assert(line_views(lines@) =~= heading + task_entry_lines(shown.take(0), area));
    while i < n && i < panel.tasks.len()
        invariant
            i <= n,
            i <= panel.tasks@.len(),
            shown == first_of(panel.tasks@, n as nat),
            line_views(lines@) == heading + task_entry_lines(shown.take(i as int), area),
        decreases panel.tasks@.len() - i,
    {
        push_task(&mut lines, &panel.tasks[i], area);
        proof {
            assert(shown.take(i + 1).drop_last() =~= shown.take(i as int));
            assert(line_views(lines@) =~= heading + task_entry_lines(shown.take(i + 1), area));
        }
        i = i + 1;
    }
    assert(shown.take(i as int) =~= shown);
    lines
}

// === Agents ===

/// What has become of an agent.
#[derive(Debug)]
pub enum SubAgentStatus {
    Running,
    Completed,
    Interrupted(String),
    Failed(String),
    Cancelled,
}

/// An agent of which a report has arrived.
#[derive(Debug)]
pub struct AgentEntry {
    pub agent_id: String,
    pub agent_type: String,
    pub role: Option<String>,
    pub objective: String,
    pub status: SubAgentStatus,
    pub steps_taken: u32,
}

/// What is known of the agents: the reports, and the latest word from each
/// that has sent one.
#[derive(Debug)]
pub struct AgentPanel {
    pub cache: Vec<AgentEntry>,
    /// The identifier of an agent, and its word.
    pub progress: Vec<(String, String)>,
}

/// Whether there is a report of this agent.
pub open spec fn is_cached(cache: Seq<AgentEntry>, id: Seq<char>) -> bool {
    exists|i: int| 0 <= i < cache.len() && (#[trigger] cache[i]).agent_id@ == id
}

/// The identifiers and words of the agents of which there is no report.
pub open spec fn unreported(
    cache: Seq<AgentEntry>,
    progress: Seq<(String, String)>,
) -> Seq<(Seq<char>, Seq<char>)>
    decreases progress.len(),
{
    if progress.len() == 0 {
        Seq::empty()
    } else {
        let before = unreported(cache, progress.drop_last());
        if is_cached(cache, progress.last().0@) {
            before
        } else {
            before.push((progress.last().0@, progress.last().1@))
        }
    }
}

/// How many of the agents with a report are running.
pub open spec fn running_agents(cache: Seq<AgentEntry>) -> nat
    decreases cache.len(),
{
    if cache.len() == 0 {
        0
    } else if cache.last().status is Running {
        running_agents(cache.drop_last()) + 1
    } else {
        running_agents(cache.drop_last())
    }
}

/// The word for what has become of an agent.
pub open spec fn agent_word(status: SubAgentStatus) -> Seq<char> {
    match status {
        SubAgentStatus::Running => "running"@,
        SubAgentStatus::Completed => "done"@,
        SubAgentStatus::Interrupted(_) => "interrupted"@,
        SubAgentStatus::Failed(_) => "failed"@,
        SubAgentStatus::Cancelled => "cancelled"@,
    }
}

/// The tone of an agent.
pub open spec fn agent_tone(status: SubAgentStatus) -> Tone {
    match status {
        SubAgentStatus::Running => Tone::StatusWarning,
        SubAgentStatus::Completed => Tone::StatusSuccess,
        SubAgentStatus::Interrupted(_) => Tone::StatusWarning,
        SubAgentStatus::Failed(_) => Tone::StatusError,
        SubAgentStatus::Cancelled => Tone::TextMuted,
    }
}

/// The first line of an agent with a report.
pub open spec fn agent_span(agent: AgentEntry, area: Area) -> SpanView {
    framed(
        ""@,
        agent.agent_id@,
        10,
        " "@ + agent.agent_type@ + "/"@ + match agent.role {
            Some(r) => r@,
            None => "default"@,
        } + " "@ + agent_word(agent.status) + " ("@ + decimal(agent.steps_taken as nat)
            + " steps)"@,
        Some(text_width(area)),
        agent_tone(agent.status),
    )
}

/// The first line of an agent without a report.
pub open spec fn starting_span(id: Seq<char>, area: Area) -> SpanView {
    framed(""@, id, 10, " starting"@, Some(text_width(area)), Tone::StatusWarning)
}

/// The lines of the agents without a report: two for each.
pub open spec fn starting_lines(agents: Seq<(Seq<char>, Seq<char>)>, area: Area) -> Seq<
    Seq<SpanView>,
>
    decreases agents.len(),
{
    if agents.len() == 0 {
        Seq::empty()
    } else {
        starting_lines(agents.drop_last(), area).push(
            seq![starting_span(agents.last().0, area)],
        ).push(seq![detail_span(agents.last().1, area)])
    }
}

/// The lines of the agents with a report: two for each.
pub open spec fn agent_entry_lines(agents: Seq<AgentEntry>, area: Area) -> Seq<Seq<SpanView>>
    decreases agents.len(),
{
    if agents.len() == 0 {
        Seq::empty()
    } else {
        agent_entry_lines(agents.drop_last(), area).push(
            seq![agent_span(agents.last(), area)],
        ).push(seq![detail_span(agents.last().objective@, area)])
    }
}

/// The heading of the agent panel: how many run, or how many are done once
/// none does.
pub open spec fn agent_heading(running: nat, total: nat) -> Seq<SpanView> {
    if running > 0 {
        running_heading(running, total)
    } else {
        seq![toned(decimal(total) + " done"@, Tone::StatusSuccess)]
    }
}

/// The lines of the agent panel. The agents without a report come first: they
/// are the freshest signal.
pub open spec fn agent_lines(panel: AgentPanel, area: Area) -> Seq<Seq<SpanView>> {
    let starting = unreported(panel.cache@, panel.progress@);
    let total = (panel.cache@.len() + starting.len()) as nat;
    if total == 0 {
        seq![seq![toned("No agents"@, Tone::TextMuted)]]
    } else {
        let n = room(area, 1);
        let first = first_of(starting, n);
        let settled = first_of(panel.cache@, (n - first.len()) as nat);
        seq![agent_heading(running_agents(panel.cache@) + starting.len(), total)]
            + starting_lines(first, area) + agent_entry_lines(settled, area) + more_line(
            (total - first.len() - settled.len()) as nat,
            "agents"@,
            Tone::TextMuted,
        )
    }
}

/// The agents can be counted.
pub open spec fn agents_fit(panel: AgentPanel) -> bool {
    panel.cache@.len() + panel.progress@.len() <= usize::MAX
}

fn cached(cache: &Vec<AgentEntry>, id: &str) -> (r: bool)
    ensures
        r == is_cached(cache@, id@),
{
    let mut i: usize = 0;
    while i < cache.len()
        invariant
            i <= cache@.len(),
            forall|j: int| 0 <= j < i ==> (#[trigger] cache@[j]).agent_id@ != id@,
        decreases cache@.len() - i,
    {
        if same_text(cache[i].agent_id.as_str(), id) {
            return true;
        }
        i = i + 1;
    }
    false
}

/// The agents without a report, as places in the list of words.
fn unreported_places(panel: &AgentPanel) -> (r: Vec<usize>)
    ensures
        r@.len() <= panel.progress@.len(),
        forall|k: int| 0 <= k < r@.len() ==> #[trigger] r@[k] < panel.progress@.len(),
        unreported(panel.cache@, panel.progress@) == r@.map_values(
            |k: usize| (panel.progress@[k as int].0@, panel.progress@[k as int].1@),
        ),
{
    let ghost word = |k: usize| (panel.progress@[k as int].0@, panel.progress@[k as int].1@);
    let mut places: Vec<usize> = Vec::new();
    let mut i: usize = 0;
    assert(unreported(panel.cache@, panel.progress@.take(0)) =~= places@.map_values(word));
    while i < panel.progress.len()
        invariant
            i <= panel.progress@.len(),
            places@.len() <= i,
            forall|k: int| 0 <= k < places@.len() ==> #[trigger] places@[k] < i,
            word == (|k: usize| (panel.progress@[k as int].0@, panel.progress@[k as int].1@)),
            unreported(panel.cache@, panel.progress@.take(i as int)) == places@.map_values(word),
        decreases panel.progress@.len() - i,
    {
        let ghost before = places@;
        assert(panel.progress@.take(i + 1).drop_last() =~= panel.progress@.take(i as int));
        if !cached(&panel.cache, panel.progress[i].0.as_str()) {
            places.push(i);
            assert(places@.map_values(word) =~= before.map_values(word).push(word(i)));
        }
        i = i + 1;
    }
    assert(panel.progress@.take(panel.progress@.len() as int) =~= panel.progress@);
    places
}

fn count_running_agents(cache: &Vec<AgentEntry>) -> (r: usize)
    ensures
        r == running_agents(cache@),
        r <= cache@.len(),
{
    let mut n: usize = 0;
    let mut i: usize = 0;
    while i < cache.len()
        invariant
            i <= cache@.len(),
            n <= i,
            n == running_agents(cache@.take(i as int)),
        decreases cache@.len() - i,
    {
        assert(cache@.take(i + 1).drop_last() =~= cache@.take(i as int));
        if let SubAgentStatus::Running = &cache[i].status {
            n = n + 1;
        }
        i = i + 1;
    }
    assert(cache@.take(cache@.len() as int) =~= cache@);
    n
}

fn push_agent(lines: &mut Vec<Line>, agent: &AgentEntry, area: Area)
    ensures
        line_views(final(lines)@) == line_views(old(lines)@).push(
            seq![agent_span(*agent, area)],
        ).push(seq![detail_span(agent.objective@, area)]),
{
    let (word, tone): (&str, Tone) = match &agent.status {
        SubAgentStatus::Running => ("running", Tone::StatusWarning),
        SubAgentStatus::Completed => ("done", Tone::StatusSuccess),
        SubAgentStatus::Interrupted(_) => ("interrupted", Tone::StatusWarning),
        SubAgentStatus::Failed(_) => ("failed", Tone::StatusError),
        SubAgentStatus::Cancelled => ("cancelled", Tone::TextMuted),
    };
    let mut after: String = " ".to_string();
    after.append(agent.agent_type.as_str());
    after.append("/");
    match &agent.role {
        Some(role) => after.append(role.as_str()),
        None => after.append("default"),
    }
    after.append(" ");
    after.append(word);
    after.append(" (");
    push_decimal(&mut after, agent.steps_taken as u64);
    after.append(" steps)");
    push_line(
        lines,
        framed_span("", agent.agent_id.as_str(), 10, after, Some(width_for_text(area)), tone),
    );
    push_detail(lines, agent.objective.as_str(), area);
}

fn agent_panel_lines(panel: &AgentPanel, area: Area) -> (r: Vec<Line>)
    requires
        agents_fit(*panel),
    ensures
        line_views(r@) == agent_lines(*panel, area),
{
    let mut lines: Vec<Line> = Vec::new();
    let starting: Vec<usize> = unreported_places(panel);
    let ghost words = unreported(panel.cache@, panel.progress@);
    assert(words.len() == starting@.len());
    let total: usize = panel.cache.len() + starting.len();
    if total == 0 {
        push_line(&mut lines, span("No agents".to_string(), None, Tone::TextMuted, false));
        assert(line_views(lines@) =~= agent_lines(*panel, area));
        return lines;
    }
    let running: usize = count_running_agents(&panel.cache) + starting.len();
    if running > 0 {
        push_running_heading(&mut lines, running, total);
    } else {
        let mut text: String = String::new();
        push_decimal(&mut text, total as u64);
        text.append(" done");
        assert(text@ =~= decimal(total as nat) + " done"@);
        push_line(&mut lines, span(text, None, Tone::StatusSuccess, false));
    }
    let ghost heading = seq![agent_heading(running as nat, total as nat)];
    assert(line_views(lines@) =~= heading);
    let n: usize = room_under(area, 1);
    let ghost first = first_of(words, n as nat);
    let mut i: usize = 0;
    assert(line_views(lines@) =~= heading + starting_lines(first.take(0), area));
    while i < n && i < starting.len()
        invariant
            i <= n,
            i <= starting@.len(),
            words.len() == starting@.len(),
            words == starting@.map_values(
                |k: usize| (panel.progress@[k as int].0@, panel.progress@[k as int].1@),
            ),
            forall|k: int|
                0 <= k < starting@.len() ==> #[trigger] starting@[k] < panel.progress@.len(),
            first == first_of(words, n as nat),
            line_views(lines@) == heading + starting_lines(first.take(i as int), area),
        decreases starting@.len() - i,
    {
        let k: usize = starting[i];
        push_line(
            &mut lines,
            framed_span(
                "",
                panel.progress[k].0.as_str(),
                10,
                " starting".to_string(),
                Some(width_for_text(area)),
                Tone::StatusWarning,
            ),
        );
        push_detail(&mut lines, panel.progress[k].1.as_str(), area);
        proof {
            assert(first[i as int] == (
                panel.progress@[k as int].0@,
                panel.progress@[k as int].1@,
            ));
            assert(first.take(i + 1).drop_last() =~= first.take(i as int));
            assert(line_views(lines@) =~= heading + starting_lines(first.take(i + 1), area));
        }
        i = i + 1;
    }
    assert(first.take(i as int) =~= first);
    let ghost above = line_views(lines@);
    let budget: usize = n - i;
    let ghost settled = first_of(panel.cache@, budget as nat);
    let mut j: usize = 0;
    assert(line_views(lines@) =~= above + agent_entry_lines(settled.take(0), area));
    while j < budget && j < panel.cache.len()
        invariant
            j <= budget,
            j <= panel.cache@.len(),
            settled == first_of(panel.cache@, budget as nat),
            line_views(lines@) == above + agent_entry_lines(settled.take(j as int), area),
        decreases panel.cache@.len() - j,
    {
        push_agent(&mut lines, &panel.cache[j], area);
        proof {
            assert(settled.take(j + 1).drop_last() =~= settled.take(j as int));
            assert(line_views(lines@) =~= above + agent_entry_lines(settled.take(j + 1), area));
        }
        j = j + 1;
    }
    assert(settled.take(j as int) =~= settled);
    push_more_line(&mut lines, total - i - j, "agents", Tone::TextMuted);
    lines
}

// === Panels ===

/// What the sidebar shows.
#[derive(Debug, Clone, Copy, PartialEq, Eq, Structural)]
pub enum SidebarFocus {
    /// All panels, one under the other.
    Auto,
    Plan,
    Todos,
    Tasks,
    Agents,
}

/// What the panels are drawn from.
#[derive(Debug)]
pub struct SidebarState {
    pub focus: SidebarFocus,
    /// The plan; none while it is being changed.
    pub plan: Option<PlanSnapshot>,
    /// The todos; none while they are being changed.
    pub todos: Option<TodoSnapshot>,
    pub tasks: TaskPanel,
    pub agents: AgentPanel,
}

/// The title of a panel, cut so that it fits.
pub open spec fn section_title(title: Seq<char>, area: Area) -> SpanView {
    SpanView {
        pieces: seq![
            PieceView::Plain(" "@),
            PieceView::Clipped { text: title, width: text_width(area) },
            PieceView::Plain(" "@),
        ],
        clip: None,
        tone: Tone::SectionTitle,
        bold: true,
    }
}

/// A panel; none where the area is too small for one.
pub open spec fn section(area: Area, title: Seq<char>, lines: Seq<Seq<SpanView>>) -> Option<
    PanelView,
> {
    if area.width < 4 || area.height < 3 {
        None
    } else {
        Some(PanelView { area, title: section_title(title, area), lines })
    }
}

/// The contents of a panel, if there is one.
pub open spec fn panel_view(panel: Option<Panel>) -> Option<PanelView> {
    match panel {
        Some(p) => Some(p@),
        None => None,
    }
}

/// The contents of the panels.
pub open spec fn panel_views(panels: Seq<Panel>) -> Seq<PanelView> {
    panels.map_values(|p: Panel| p@)
}

/// A panel as a list of at most one.
pub open spec fn listed(panel: Option<PanelView>) -> Seq<PanelView> {
    match panel {
        Some(p) => seq![p],
        None => Seq::empty(),
    }
}

/// The plan panel in an area.
pub open spec fn plan_panel(area: Area, state: SidebarState) -> Option<PanelView> {
    section(area, "Plan"@, plan_lines(state.plan, area))
}

/// The todo panel in an area.
pub open spec fn todo_panel(area: Area, state: SidebarState) -> Option<PanelView> {
    section(area, "Todos"@, todo_lines(state.todos, area))
}

/// The task panel in an area.
pub open spec fn task_panel(area: Area, state: SidebarState) -> Option<PanelView> {
    section(area, "Tasks"@, task_lines(state.tasks, area))
}

/// The agent panel in an area.
pub open spec fn agent_panel(area: Area, state: SidebarState) -> Option<PanelView> {
    section(area, "Agents"@, agent_lines(state.agents, area))
}

/// The panels, each in its row.
pub open spec fn stacked(rows: Seq<Area>, state: SidebarState) -> Seq<PanelView> {
    listed(plan_panel(rows[0], state)) + listed(todo_panel(rows[1], state)) + listed(
        task_panel(rows[2], state),
    ) + listed(agent_panel(rows[3], state))
}

/// The panel that has the focus, in the whole area.
pub open spec fn focused(area: Area, state: SidebarState) -> Option<PanelView> {
    match state.focus {
        SidebarFocus::Auto => None,
        SidebarFocus::Plan => plan_panel(area, state),
        SidebarFocus::Todos => todo_panel(area, state),
        SidebarFocus::Tasks => task_panel(area, state),
        SidebarFocus::Agents => agent_panel(area, state),
    }
}

/// Whether the sidebar has room to be shown.
pub open spec fn has_room(area: Area) -> bool {
    area.width >= 24 && area.height >= 8
}

/// The shares of the area that the panels get: a quarter each, and what is left
/// for the agents.
pub open spec fn panel_shares() -> Seq<Share> {
    seq![Share::Percentage(25), Share::Percentage(25), Share::Percentage(25), Share::Min(6)]
}

/// Whether the panels can stand in these rows of an area.
pub open spec fn are_rows_of(rows: Seq<Area>, area: Area) -> bool {
    &&& can_split_into(area, panel_shares(), rows)
    &&& rows.len() == 4
    &&& top_to_bottom(rows)
    &&& forall|i: int| 0 <= i < rows.len() ==> is_row_of(#[trigger] rows[i], area)
}

/// What the sidebar is drawn from can be counted.
pub open spec fn state_fits(state: SidebarState) -> bool {
    plan_fits(state.plan) && agents_fit(state.agents)
}

/// Frames the lines of a panel. The title is cut so that it fits the width of
/// the area.
pub fn render_sidebar_section(area: Area, title: &str, lines: Vec<Line>) -> (r: Option<Panel>)
    ensures
        panel_view(r) == section(area, title@, line_views(lines@)),
{
    if area.width < 4 || area.height < 3 {
        return None;
    }
    let mut heading: Span = framed_span(
        " ",
        title,
        width_for_text(area),
        " ".to_string(),
        None,
        Tone::SectionTitle,
    );
    heading.bold = true;
    assert(heading@ =~= section_title(title@, area));
    Some(Panel { area, title: heading, lines })
}

/// The plan panel.
pub fn render_sidebar_plan(area: Area, state: &SidebarState) -> (r: Option<Panel>)
    requires
        plan_fits(state.plan),
    ensures
        panel_view(r) == plan_panel(area, *state),
{
    if area.height < 3 {
        return None;
    }
    render_sidebar_section(area, "Plan", plan_panel_lines(&state.plan, area))
}

/// The todo panel.
pub fn render_sidebar_todos(area: Area, state: &SidebarState) -> (r: Option<Panel>)
    ensures
        panel_view(r) == todo_panel(area, *state),
{
    if area.height < 3 {
        return None;
    }
    render_sidebar_section(area, "Todos", todo_panel_lines(&state.todos, area))
}

/// The task panel.
pub fn render_sidebar_tasks(area: Area, state: &SidebarState) -> (r: Option<Panel>)
    ensures
        panel_view(r) == task_panel(area, *state),
{
    if area.height < 3 {
        return None;
    }
    render_sidebar_section(area, "Tasks", task_panel_lines(&state.tasks, area))
}

/// The agent panel.
pub fn render_sidebar_subagents(area: Area, state: &SidebarState) -> (r: Option<Panel>)
    requires
        agents_fit(state.agents),
    ensures
        panel_view(r) == agent_panel(area, *state),
{
    if area.height < 3 {
        return None;
    }
    render_sidebar_section(area, "Agents", agent_panel_lines(&state.agents, area))
}

fn push_panel(panels: &mut Vec<Panel>, panel: Option<Panel>)
    ensures
        panel_views(final(panels)@) == panel_views(old(panels)@) + listed(panel_view(panel)),
{
    let ghost before = panels@;
    if let Some(p) = panel {
        panels.push(p);
    }
    assert(panel_views(panels@) =~= panel_views(before) + listed(panel_view(panel)));
}

/// The panels, each in its row: the plan, the todos, the tasks and the agents.
pub fn render_sidebar_rows(rows: &Vec<Area>, state: &SidebarState) -> (r: Vec<Panel>)
    requires
        rows@.len() == 4,
        state_fits(*state),
    ensures
        panel_views(r@) == stacked(rows@, *state),
{
    let mut panels: Vec<Panel> = Vec::new();
    assert(panel_views(panels@) =~= Seq::empty());
    push_panel(&mut panels, render_sidebar_plan(rows[0], state));
    push_panel(&mut panels, render_sidebar_todos(rows[1], state));
    push_panel(&mut panels, render_sidebar_tasks(rows[2], state));
    push_panel(&mut panels, render_sidebar_subagents(rows[3], state));
    assert(panel_views(panels@) =~= stacked(rows@, *state));
    panels
}

/// The sidebar: nothing where there is no room for it, all panels in rows of
/// the area, or the one panel that has the focus.
pub fn render_sidebar(area: Area, state: &SidebarState) -> (r: Vec<Panel>)
    requires
        state_fits(*state),
    ensures
        !has_room(area) ==> r@.len() == 0,
        area.width < 24 || area.height < 8 ==> r@.len() == 0,
        has_room(area) <==> area.width >= 24 && area.height >= 8,
        has_room(area) && state.focus == SidebarFocus::Auto ==> exists|rows: Seq<Area>|
            are_rows_of(rows, area) && panel_views(r@) == #[trigger] stacked(rows, *state),
        has_room(area) && state.focus != SidebarFocus::Auto ==> panel_views(r@) == listed(
            focused(area, *state),
        ),
        top_to_bottom(areas_of(panel_views(r@))),
{
    let mut panels: Vec<Panel> = Vec::new();
    if area.width < 24 || area.height < 8 {
        return panels;
    }
    assert(panel_views(panels@) =~= Seq::empty());
    let panel: Option<Panel> = match state.focus {
        SidebarFocus::Auto => {
            let mut shares: Vec<Share> = Vec::new();
            shares.push(Share::Percentage(25));
            shares.push(Share::Percentage(25));
            shares.push(Share::Percentage(25));
            shares.push(Share::Min(6));
            assert(shares@ =~= panel_shares());
            let rows: Vec<Area> = split_rows(area, &shares);
            assert(are_rows_of(rows@, area));
            proof {
                panels_follow_the_rows(rows@, *state);
            }
            return render_sidebar_rows(&rows, state);
        },
        SidebarFocus::Plan => render_sidebar_plan(area, state),
        SidebarFocus::Todos => render_sidebar_todos(area, state),
        SidebarFocus::Tasks => render_sidebar_tasks(area, state),
        SidebarFocus::Agents => render_sidebar_subagents(area, state),
    };
    push_panel(&mut panels, panel);
    panels
}

// === Laws ===

/// No step of a plan goes unmentioned: each has a line, or is among those that
/// the last line counts.
pub proof fn steps_are_shown_or_counted(plan: PlanSnapshot, area: Area)
    requires
        !plan.is_empty,
    ensures
        ({
            let heading = plan_heading(plan, area);
            let lines = plan_lines(Some(plan), area);
            let shown = first_of(plan.steps@, room(area, heading.len()));
            &&& lines.take(heading.len() as int) == heading
            &&& forall|i: int|
                0 <= i < shown.len() ==> (#[trigger] lines[heading.len() + i]) == seq![
                    step_span(plan.steps@[i], area),
                ]
            &&& lines.skip((heading.len() + shown.len()) as int) == more_line(
                (plan.steps@.len() - shown.len()) as nat,
                "steps"@,
                Tone::PlanSummary,
            )
        }),
{
    let heading = plan_heading(plan, area);
    let lines = plan_lines(Some(plan), area);
    let n = room(area, heading.len());
    let shown = first_of(plan.steps@, n);
    assert(lines.take(heading.len() as int) =~= heading);
    assert(lines.skip((heading.len() + shown.len()) as int) =~= more_line(
        beyond(plan.steps@, n),
        "steps"@,
        Tone::PlanSummary,
    ));
}

/// No todo goes unmentioned: each has a line, or is among those that the last
/// line counts.
pub proof fn todos_are_shown_or_counted(todos: TodoSnapshot, area: Area)
    requires
        todos.items@.len() > 0,
    ensures
        ({
            let lines = todo_lines(Some(todos), area);
            let shown = first_of(todos.items@, room(area, 1));
            &&& forall|i: int|
                0 <= i < shown.len() ==> (#[trigger] lines[1 + i]) == seq![
                    todo_span(todos.items@[i], area),
                ]
            &&& lines.skip((1 + shown.len()) as int) == more_line(
                (todos.items@.len() - shown.len()) as nat,
                "todos"@,
                Tone::TextMuted,
            )
        }),
{
    let lines = todo_lines(Some(todos), area);
    let n = room(area, 1);
    let shown = first_of(todos.items@, n);
    assert(lines.skip((1 + shown.len()) as int) =~= more_line(
        beyond(todos.items@, n),
        "todos"@,
        Tone::TextMuted,
    ));
}

proof fn starting_lines_are_pairs(agents: Seq<(Seq<char>, Seq<char>)>, area: Area)
    ensures
        starting_lines(agents, area).len() == 2 * agents.len(),
        forall|i: int|
            0 <= i < agents.len() ==> (#[trigger] starting_lines(agents, area)[2 * i]) == seq![
                starting_span(agents[i].0, area),
            ],
    decreases agents.len(),
{
    if agents.len() > 0 {
        starting_lines_are_pairs(agents.drop_last(), area);
        let before = starting_lines(agents.drop_last(), area);
        assert forall|i: int| 0 <= i < agents.len() implies (#[trigger] starting_lines(
            agents,
            area,
        )[2 * i]) == seq![starting_span(agents[i].0, area)] by {
            if i < agents.len() - 1 {
                assert(before[2 * i] == seq![starting_span(agents.drop_last()[i].0, area)]);
            }
        }
    }
}

proof fn agent_entry_lines_are_pairs(agents: Seq<AgentEntry>, area: Area)
    ensures
        agent_entry_lines(agents, area).len() == 2 * agents.len(),
        forall|i: int|
            0 <= i < agents.len() ==> (#[trigger] agent_entry_lines(agents, area)[2 * i]) == seq![
                agent_span(agents[i], area),
            ],
    decreases agents.len(),
{
    if agents.len() > 0 {
        agent_entry_lines_are_pairs(agents.drop_last(), area);
        let before = agent_entry_lines(agents.drop_last(), area);
        assert forall|i: int| 0 <= i < agents.len() implies (#[trigger] agent_entry_lines(
            agents,
            area,
        )[2 * i]) == seq![agent_span(agents[i], area)] by {
            if i < agents.len() - 1 {
                assert(before[2 * i] == seq![agent_span(agents.drop_last()[i], area)]);
            }
        }
    }
}

/// No agent goes unmentioned: each has its two lines, those without a report
/// before the others, or is among those that the last line counts.
pub proof fn agents_are_shown_or_counted(panel: AgentPanel, area: Area)
    requires
        panel.cache@.len() + unreported(panel.cache@, panel.progress@).len() > 0,
    ensures
        ({
            let starting = unreported(panel.cache@, panel.progress@);
            let lines = agent_lines(panel, area);
            let first = first_of(starting, room(area, 1));
            let settled = first_of(panel.cache@, (room(area, 1) - first.len()) as nat);
            &&& forall|i: int|
                0 <= i < first.len() ==> (#[trigger] lines[1 + 2 * i]) == seq![
                    starting_span(starting[i].0, area),
                ]
            &&& forall|i: int|
                0 <= i < settled.len() ==> (#[trigger] lines[1 + 2 * first.len() + 2 * i]) == seq![
                    agent_span(panel.cache@[i], area),
                ]
            &&& lines.skip((1 + 2 * first.len() + 2 * settled.len()) as int) == more_line(
                (panel.cache@.len() + starting.len() - first.len() - settled.len()) as nat,
                "agents"@,
                Tone::TextMuted,
            )
        }),
{
    let starting = unreported(panel.cache@, panel.progress@);
    let lines = agent_lines(panel, area);
    let n = room(area, 1);
    let first = first_of(starting, n);
    let settled = first_of(panel.cache@, (n - first.len()) as nat);
    starting_lines_are_pairs(first, area);
    agent_entry_lines_are_pairs(settled, area);
    let more = more_line(
        (panel.cache@.len() + starting.len() - first.len() - settled.len()) as nat,
        "agents"@,
        Tone::TextMuted,
    );
    assert forall|i: int| 0 <= i < first.len() implies (#[trigger] lines[1 + 2 * i]) == seq![
        starting_span(starting[i].0, area),
    ] by {
        assert(lines[1 + 2 * i] == starting_lines(first, area)[2 * i]);
    }
    assert forall|i: int| 0 <= i < settled.len() implies (#[trigger] lines[1 + 2 * first.len() + 2
        * i]) == seq![agent_span(panel.cache@[i], area)] by {
        assert(lines[1 + 2 * first.len() + 2 * i] == agent_entry_lines(settled, area)[2 * i]);
    }
    assert(lines.skip((1 + 2 * first.len() + 2 * settled.len()) as int) =~= more);
}

/// As soon as there is a report of an agent or a word from one, the panel shows
/// how many agents there are, and does not say that there are none.
pub proof fn agents_are_seen_at_once(panel: AgentPanel, area: Area)
    ensures
        (panel.cache@.len() == 0 && panel.progress@.len() == 0) <==> agent_lines(panel, area)
            == seq![seq![toned("No agents"@, Tone::TextMuted)]],
        panel.cache@.len() + panel.progress@.len() > 0 ==> agent_lines(panel, area)[0]
            == agent_heading(
            running_agents(panel.cache@) + unreported(panel.cache@, panel.progress@).len(),
            (panel.cache@.len() + unreported(panel.cache@, panel.progress@).len()) as nat,
        ),
{
    let starting = unreported(panel.cache@, panel.progress@);
    if panel.cache@.len() + panel.progress@.len() > 0 {
        let total = (panel.cache@.len() + starting.len()) as nat;
        let running = running_agents(panel.cache@) + starting.len();
        let heading = agent_heading(running, total);
        assert(agent_lines(panel, area)[0] == heading);
        assert(heading[0].tone != Tone::TextMuted);
        let none = seq![seq![toned("No agents"@, Tone::TextMuted)]];
        assert(none[0][0].tone == Tone::TextMuted);
    }
}

/// The areas of the panels.
pub open spec fn areas_of(panels: Seq<PanelView>) -> Seq<Area> {
    panels.map_values(|p: PanelView| p.area)
}

/// The panels stand in the order of their rows: where the rows lie from top to
/// bottom, so do the panels.
pub proof fn panels_follow_the_rows(rows: Seq<Area>, state: SidebarState)
    requires
        rows.len() == 4,
        top_to_bottom(rows),
    ensures
        top_to_bottom(areas_of(stacked(rows, state))),
{
    let plan = listed(plan_panel(rows[0], state));
    let todos = listed(todo_panel(rows[1], state));
    let tasks = listed(task_panel(rows[2], state));
    let agents = listed(agent_panel(rows[3], state));
    let panels = stacked(rows, state);
    let n0 = plan.len() as int;
    let n1 = n0 + todos.len();
    let n2 = n1 + tasks.len();
    assert(panels =~= plan + todos + tasks + agents);
    assert forall|i: int| 0 <= i < panels.len() implies #[trigger] areas_of(panels)[i] == rows[if i
        < n0 {
        0int
    } else if i < n1 {
        1
    } else if i < n2 {
        2
    } else {
        3
    }] by {
        if i < n0 {
            assert(panels[i] == plan[i]);
        } else if i < n1 {
            assert(panels[i] == todos[i - n0]);
        } else if i < n2 {
            assert(panels[i] == tasks[i - n1]);
        } else {
            assert(panels[i] == agents[i - n2]);
        }
    }
}

/// The title of a panel, with the space on both sides, fits the width of its
/// area.
pub proof fn section_title_fits(area: Area, title: Seq<char>, lines: Seq<Seq<SpanView>>)
    ensures
        section(area, title, lines) matches Some(panel) ==> {
            &&& panel.title.pieces.len() == 3
            &&& panel.title.pieces[0] == PieceView::Plain(" "@)
            &&& panel.title.pieces[1] matches PieceView::Clipped { text, width } && text == title
                && width >= 1 && width + 2 <= area.width
            &&& panel.title.pieces[2] == PieceView::Plain(" "@)
        },
{
}

/// Four cells of a line's width go to the frame, six where the line is indented,
/// and three rows of the height; at least one cell is left for text.
pub proof fn frame_takes_its_room(area: Area, heading: nat)
    ensures
        area.width >= 5 ==> text_width(area) == area.width - 4,
        area.width < 5 ==> text_width(area) == 1,
        area.width >= 7 ==> indented_width(area) == area.width - 6,
        area.width < 7 ==> indented_width(area) == 1,
        area.height >= 3 + heading ==> room(area, heading) == area.height - 3 - heading,
        area.height < 3 + heading ==> room(area, heading) == 0,
{
}

/// The first of a list are its beginning, as many as asked for or as there are,
/// and the others are counted.
pub proof fn first_are_the_beginning<T>(s: Seq<T>, n: nat)
    ensures
        first_of(s, n).len() == if n < s.len() {
            n
        } else {
            s.len()
        },
        forall|i: int| 0 <= i < first_of(s, n).len() ==> #[trigger] first_of(s, n)[i] == s[i],
        beyond(s, n) + first_of(s, n).len() == s.len(),
{
}

/// Todos, tasks and agents are counted one by one.
pub proof fn counts_are_of_those_that_match(
    todos: Seq<TodoItem>,
    tasks: Seq<TaskEntry>,
    agents: Seq<AgentEntry>,
)
    ensures
        completed_count(todos) == todos.filter(|t: TodoItem| t.status is Completed).len(),
        running_count(tasks) == tasks.filter(|t: TaskEntry| t.status@ == "running"@).len(),
        running_agents(agents) == agents.filter(|a: AgentEntry| a.status is Running).len(),
{
    completed_todos_are_counted(todos);
    running_tasks_are_counted(tasks);
    running_agents_are_counted(agents);
}

proof fn completed_todos_are_counted(todos: Seq<TodoItem>)
    ensures
        completed_count(todos) == todos.filter(|t: TodoItem| t.status is Completed).len(),
    decreases todos.len(),
{
    reveal_with_fuel(Seq::filter, 2);
    if todos.len() > 0 {
        completed_todos_are_counted(todos.drop_last());
    }
}

proof fn running_tasks_are_counted(tasks: Seq<TaskEntry>)
    ensures
        running_count(tasks) == tasks.filter(|t: TaskEntry| t.status@ == "running"@).len(),
    decreases tasks.len(),
{
    reveal_with_fuel(Seq::filter, 2);
    if tasks.len() > 0 {
        running_tasks_are_counted(tasks.drop_last());
    }
}

proof fn running_agents_are_counted(agents: Seq<AgentEntry>)
    ensures
        running_agents(agents) == agents.filter(|a: AgentEntry| a.status is Running).len(),
    decreases agents.len(),
{
    reveal_with_fuel(Seq::filter, 2);
    if agents.len() > 0 {
        running_agents_are_counted(agents.drop_last());
    }
}

/// Whether no cached agent has the identifier of this word.
pub open spec fn is_without_report(cache: Seq<AgentEntry>, word: (String, String)) -> bool {
    forall|i: int| 0 <= i < cache.len() ==> (#[trigger] cache[i]).agent_id@ != word.0@
}

/// The agents listed as starting are those that sent word and whose identifier
/// differs from that of every cached agent: all of them, in their order, with
/// their words, and no other.
pub proof fn starting_agents_have_no_report(
    cache: Seq<AgentEntry>,
    progress: Seq<(String, String)>,
)
    ensures
        unreported(cache, progress) == progress.filter(
            |p: (String, String)| is_without_report(cache, p),
        ).map_values(|p: (String, String)| (p.0@, p.1@)),
        forall|i: int, k: int|
            #![trigger cache[i], unreported(cache, progress)[k]]
            0 <= i < cache.len() && 0 <= k < unreported(cache, progress).len()
                ==> cache[i].agent_id@ != unreported(cache, progress)[k].0,
        forall|j: int|
            0 <= j < progress.len() && is_without_report(cache, #[trigger] progress[j])
                ==> unreported(cache, progress).contains((progress[j].0@, progress[j].1@)),
        (forall|j: int| 0 <= j < progress.len() ==> !is_without_report(cache, #[trigger] progress[j]))
            ==> unreported(cache, progress).len() == 0,
    decreases progress.len(),
{
    reveal_with_fuel(Seq::filter, 2);
    let all = unreported(cache, progress);
    if progress.len() > 0 {
        let head = progress.drop_last();
        let before = unreported(cache, head);
        let last = progress.last();
        starting_agents_have_no_report(cache, head);
        assert(is_cached(cache, last.0@) <==> !is_without_report(cache, last));
        assert forall|i: int, k: int|
            #![trigger cache[i], all[k]]
            0 <= i < cache.len() && 0 <= k < all.len() implies cache[i].agent_id@ != all[k].0 by {
            if k < before.len() {
                assert(all[k] == before[k]);
            }
        }
        assert forall|j: int|
            0 <= j < progress.len() && is_without_report(
                cache,
                #[trigger] progress[j],
            ) implies all.contains((progress[j].0@, progress[j].1@)) by {
            if j < head.len() {
                assert(progress[j] == head[j]);
                let k = choose|k: int|
                    0 <= k < before.len() && before[k] == (progress[j].0@, progress[j].1@);
                assert(all[k] == before[k]);
            } else {
                assert(all[all.len() - 1] == (last.0@, last.1@));
            }
        }
        if forall|j: int|
            0 <= j < progress.len() ==> !is_without_report(cache, #[trigger] progress[j]) {
            assert forall|j: int| 0 <= j < head.len() implies !is_without_report(
                cache,
                #[trigger] head[j],
            ) by {
                assert(head[j] == progress[j]);
            }
            assert(!is_without_report(cache, progress[progress.len() - 1]));
        }
    }
    assert(all =~= progress.filter(
        |p: (String, String)| is_without_report(cache, p),
    ).map_values(|p: (String, String)| (p.0@, p.1@)));
}

/// A span with one text.
pub open spec fn plain_span(
    text: Seq<char>,
    clip: Option<usize>,
    tone: Tone,
    bold: bool,
) -> SpanView {
    SpanView { pieces: seq![PieceView::Plain(text)], clip, tone, bold }
}

/// The line of a step has its box, its text and the time that it took; that of a
/// todo its box, its number and its content. Both are cut to the width.
pub proof fn steps_and_todos_are_shown_whole(step: PlanStep, item: TodoItem, area: Area)
    ensures
        ({
            let s = step_span(step, area);
            let mark = match step.status {
                StepStatus::Pending => "[ ]"@,
                StepStatus::InProgress => "[~]"@,
                StepStatus::Completed => "[x]"@,
            };
            let tone = match step.status {
                StepStatus::Pending => Tone::PlanPending,
                StepStatus::InProgress => Tone::PlanInProgress,
                StepStatus::Completed => Tone::PlanCompleted,
            };
            &&& step.elapsed@.len() == 0 ==> s == plain_span(
                mark + " "@ + step.text@,
                Some(text_width(area)),
                tone,
                false,
            )
            &&& step.elapsed@.len() > 0 ==> s == plain_span(
                mark + " "@ + step.text@ + " ("@ + step.elapsed@ + ")"@,
                Some(text_width(area)),
                tone,
                false,
            )
        }),
        todo_span(item, area) == plain_span(
            match item.status {
                StepStatus::Pending => "[ ]"@,
                StepStatus::InProgress => "[~]"@,
                StepStatus::Completed => "[x]"@,
            } + " #"@ + decimal(item.id as nat) + " "@ + item.content@,
            Some(text_width(area)),
            match item.status {
                StepStatus::Pending => Tone::TextMuted,
                StepStatus::InProgress => Tone::StatusWarning,
                StepStatus::Completed => Tone::StatusSuccess,
            },
            false,
        ),
{
}

/// A span with a text that is cut between two others.
pub open spec fn named_span(
    before: Seq<char>,
    name: Seq<char>,
    width: usize,
    after: Seq<char>,
    clip: Option<usize>,
    tone: Tone,
) -> SpanView {
    SpanView {
        pieces: seq![
            PieceView::Plain(before),
            PieceView::Clipped { text: name, width },
            PieceView::Plain(after),
        ],
        clip,
        tone,
        bold: false,
    }
}

/// The first line of a task has its identifier, its status and the time that it
/// took; that of an agent its identifier, its type, its role, its status and its
/// steps, or that it is starting. The second line has the prompt, the objective
/// or the word, indented.
pub proof fn tasks_and_agents_are_shown_whole(
    task: TaskEntry,
    agent: AgentEntry,
    text: Seq<char>,
    area: Area,
)
    ensures
        ({
            let took = match task.duration {
                Some(d) => d@,
                None => "-"@,
            };
            let s = task.status@;
            let shown = task_span(task, area);
            let clip = Some(text_width(area));
            &&& shown == named_span(
                ""@,
                task.id@,
                10,
                " "@ + task.status@ + " "@ + took,
                clip,
                shown.tone,
            )
            &&& s == "running"@ ==> shown.tone == Tone::StatusWarning
            &&& s == "completed"@ ==> shown.tone == Tone::StatusSuccess
            &&& s == "failed"@ ==> shown.tone == Tone::StatusError
            &&& s == "canceled"@ ==> shown.tone == Tone::TextDim
            &&& s != "running"@ && s != "completed"@ && s != "failed"@ && s != "canceled"@
                ==> shown.tone == Tone::TextMuted
        }),
        ({
            let role = match agent.role {
                Some(r) => r@,
                None => "default"@,
            };
            let (word, tone) = match agent.status {
                SubAgentStatus::Running => ("running"@, Tone::StatusWarning),
                SubAgentStatus::Completed => ("done"@, Tone::StatusSuccess),
                SubAgentStatus::Interrupted(_) => ("interrupted"@, Tone::StatusWarning),
                SubAgentStatus::Failed(_) => ("failed"@, Tone::StatusError),
                SubAgentStatus::Cancelled => ("cancelled"@, Tone::TextMuted),
            };
            agent_span(agent, area) == named_span(
                ""@,
                agent.agent_id@,
                10,
                " "@ + agent.agent_type@ + "/"@ + role + " "@ + word + " ("@ + decimal(
                    agent.steps_taken as nat,
                ) + " steps)"@,
                Some(text_width(area)),
                tone,
            )
        }),
        starting_span(text, area) == named_span(
            ""@,
            text,
            10,
            " starting"@,
            Some(text_width(area)),
            Tone::StatusWarning,
        ),
        detail_span(text, area) == named_span(
            "  "@,
            text,
            indented_width(area),
            ""@,
            None,
            Tone::TextDim,
        ),
{
    reveal_strlit("running");
    reveal_strlit("completed");
    reveal_strlit("failed");
    reveal_strlit("canceled");
    assert("running"@[0] == 'r');
    assert("failed"@[0] == 'f');
    assert("completed"@[1] == 'o');
    assert("canceled"@[1] == 'a');
    assert("completed"@[0] == 'c');
    assert("canceled"@[0] == 'c');
}

/// The plan panel says what it can of a plan that is being changed or empty.
/// Otherwise it shows how much is done, the explanation, if there is one, the
/// first steps as far as there is room, and how many more there are.
pub proof fn plan_panel_shows_the_plan(plan: PlanSnapshot, area: Area)
    ensures
        plan_lines(None, area) == seq![
            seq![plain_span("Plan state updating..."@, None, Tone::PlanSummary, false)],
        ],
        plan.is_empty ==> plan_lines(Some(plan), area) == seq![
            seq![plain_span("No active plan"@, None, Tone::PlanSummary, false)],
        ],
        !plan.is_empty ==> {
            let lines = plan_lines(Some(plan), area);
            let top: int = if plan.explanation is Some {
                2
            } else {
                1
            };
            let n = room(area, top as nat);
            let shown: int = if n < plan.steps@.len() {
                n as int
            } else {
                plan.steps@.len() as int
            };
            &&& lines[0] == seq![
                plain_span(
                    decimal(plan.progress_percent as nat) + "%"@,
                    None,
                    Tone::PlanProgress,
                    true,
                ),
                plain_span(
                    " complete ("@ + decimal(plan.completed as nat) + "/"@ + decimal(
                        (plan.pending + plan.in_progress + plan.completed) as nat,
                    ) + ")"@,
                    None,
                    Tone::PlanSummary,
                    false,
                ),
            ]
            &&& plan.explanation matches Some(e) ==> lines[1] == seq![
                plain_span(e@, Some(text_width(area)), Tone::PlanExplanation, false),
            ]
            &&& forall|i: int|
                0 <= i < shown ==> (#[trigger] lines[top + i]) == seq![
                    step_span(plan.steps@[i], area),
                ]
            &&& shown == plan.steps@.len() ==> lines.len() == top + shown
            &&& shown < plan.steps@.len() ==> lines.len() == top + shown + 1 && lines[top + shown]
                == seq![
                plain_span(
                    "+"@ + decimal((plan.steps@.len() - shown) as nat) + " more steps"@,
                    None,
                    Tone::PlanSummary,
                    false,
                ),
            ]
        },
{
    more_lines_join();
}

proof fn more_lines_join()
    ensures
        forall|d: Seq<char>| "+"@ + d + " more "@ + "steps"@ == #[trigger] ("+"@ + d) + " more steps"@,
        forall|d: Seq<char>| "+"@ + d + " more "@ + "todos"@ == #[trigger] ("+"@ + d) + " more todos"@,
        forall|d: Seq<char>|
            "+"@ + d + " more "@ + "agents"@ == #[trigger] ("+"@ + d) + " more agents"@,
{
    reveal_strlit(" more ");
    reveal_strlit("steps");
    reveal_strlit("todos");
    reveal_strlit("agents");
    reveal_strlit(" more steps");
    reveal_strlit(" more todos");
    reveal_strlit(" more agents");
    assert(" more "@ + "steps"@ =~= " more steps"@);
    assert(" more "@ + "todos"@ =~= " more todos"@);
    assert(" more "@ + "agents"@ =~= " more agents"@);
    assert forall|d: Seq<char>| "+"@ + d + " more "@ + "steps"@ == #[trigger] ("+"@ + d)
        + " more steps"@ by {
        assert("+"@ + d + " more "@ + "steps"@ =~= ("+"@ + d) + (" more "@ + "steps"@));
    }
    assert forall|d: Seq<char>| "+"@ + d + " more "@ + "todos"@ == #[trigger] ("+"@ + d)
        + " more todos"@ by {
        assert("+"@ + d + " more "@ + "todos"@ =~= ("+"@ + d) + (" more "@ + "todos"@));
    }
    assert forall|d: Seq<char>| "+"@ + d + " more "@ + "agents"@ == #[trigger] ("+"@ + d)
        + " more agents"@ by {
        assert("+"@ + d + " more "@ + "agents"@ =~= ("+"@ + d) + (" more "@ + "agents"@));
    }
}

/// The todo panel says what it can of todos that are being changed or none.
/// Otherwise it shows how much is done, the first todos as far as there is room,
/// and how many more there are.
pub proof fn todo_panel_shows_the_todos(todos: TodoSnapshot, area: Area)
    ensures
        todo_lines(None, area) == seq![
            seq![plain_span("Todo list updating..."@, None, Tone::TextMuted, false)],
        ],
        todos.items@.len() == 0 ==> todo_lines(Some(todos), area) == seq![
            seq![plain_span("No todos"@, None, Tone::TextMuted, false)],
        ],
        todos.items@.len() > 0 ==> {
            let lines = todo_lines(Some(todos), area);
            let total = todos.items@.len();
            let n = room(area, 1);
            let shown: int = if n < total {
                n as int
            } else {
                total as int
            };
            &&& lines[0] == seq![
                plain_span(
                    decimal(todos.completion_pct as nat) + "%"@,
                    None,
                    Tone::StatusSuccess,
                    true,
                ),
                plain_span(
                    " complete ("@ + decimal(
                        todos.items@.filter(|t: TodoItem| t.status is Completed).len(),
                    ) + "/"@ + decimal(total) + ")"@,
                    None,
                    Tone::TextMuted,
                    false,
                ),
            ]
            &&& forall|i: int|
                0 <= i < shown ==> (#[trigger] lines[1 + i]) == seq![
                    todo_span(todos.items@[i], area),
                ]
            &&& shown == total ==> lines.len() == 1 + shown
            &&& shown < total ==> lines.len() == 2 + shown && lines[1 + shown] == seq![
                plain_span(
                    "+"@ + decimal((total - shown) as nat) + " more todos"@,
                    None,
                    Tone::TextMuted,
                    false,
                ),
            ]
        },
{
    more_lines_join();
    completed_todos_are_counted(todos.items@);
}

proof fn task_lines_are_pairs(tasks: Seq<TaskEntry>, area: Area)
    ensures
        task_entry_lines(tasks, area).len() == 2 * tasks.len(),
        forall|i: int|
            #![trigger tasks[i]]
            0 <= i < tasks.len() ==> {
                &&& task_entry_lines(tasks, area)[2 * i] == seq![task_span(tasks[i], area)]
                &&& task_entry_lines(tasks, area)[2 * i + 1] == seq![
                    detail_span(tasks[i].prompt_summary@, area),
                ]
            },
    decreases tasks.len(),
{
    if tasks.len() > 0 {
        let head = tasks.drop_last();
        task_lines_are_pairs(head, area);
        let before = task_entry_lines(head, area);
        let all = task_entry_lines(tasks, area);
        assert forall|i: int| #![trigger tasks[i]] 0 <= i < tasks.len() implies {
            &&& all[2 * i] == seq![task_span(tasks[i], area)]
            &&& all[2 * i + 1] == seq![detail_span(tasks[i].prompt_summary@, area)]
        } by {
            if i < head.len() {
                assert(head[i] == tasks[i]);
                assert(all[2 * i] == before[2 * i]);
                assert(all[2 * i + 1] == before[2 * i + 1]);
            }
        }
    }
}

/// The task panel shows the turn that is running, if there is one, then how many
/// tasks are running of how many, and two lines for each of the first tasks, as
/// many as there are rows left; or that there are none.
pub proof fn task_panel_shows_the_tasks(panel: TaskPanel, area: Area)
    ensures
        ({
            let lines = task_lines(panel, area);
            let tasks = panel.tasks@;
            let top: int = if panel.turn_id is Some {
                1
            } else {
                0
            };
            let n = room(area, (top + 1) as nat);
            let shown: int = if n < tasks.len() {
                n as int
            } else {
                tasks.len() as int
            };
            &&& panel.turn_id matches Some(id) ==> lines[0] == seq![
                named_span(
                    "turn "@,
                    id@,
                    12,
                    " ("@ + match panel.turn_status {
                        Some(s) => s@,
                        None => "unknown"@,
                    } + ")"@,
                    Some(text_width(area)),
                    Tone::Sky,
                ),
            ]
            &&& tasks.len() == 0 ==> lines.len() == top + 1 && lines[top] == seq![
                plain_span("No tasks"@, None, Tone::TextMuted, false),
            ]
            &&& tasks.len() > 0 ==> {
                &&& lines[top] == seq![
                    plain_span(
                        decimal(tasks.filter(|t: TaskEntry| t.status@ == "running"@).len())
                            + " running"@,
                        None,
                        Tone::Sky,
                        true,
                    ),
                    plain_span(" / "@ + decimal(tasks.len()), None, Tone::TextMuted, false),
                ]
                &&& lines.len() == top + 1 + 2 * shown
                &&& forall|i: int|
                    #![trigger tasks[i]]
                    0 <= i < shown ==> {
                        &&& lines[top + 1 + 2 * i] == seq![task_span(tasks[i], area)]
                        &&& lines[top + 2 + 2 * i] == seq![
                            detail_span(tasks[i].prompt_summary@, area),
                        ]
                    }
            }
        }),
{
    let tasks = panel.tasks@;
    running_tasks_are_counted(tasks);
    let turn = turn_lines(panel, area);
    if tasks.len() > 0 {
        let heading = turn.push(running_heading(running_count(tasks), tasks.len()));
        let first = first_of(tasks, room(area, heading.len()));
        let entries = task_entry_lines(first, area);
        let lines = task_lines(panel, area);
        task_lines_are_pairs(first, area);
        assert(lines =~= heading + entries);
        assert forall|i: int| #![trigger tasks[i]] 0 <= i < first.len() implies {
            &&& lines[heading.len() + 2 * i] == seq![task_span(tasks[i], area)]
            &&& lines[heading.len() + 1 + 2 * i] == seq![
                detail_span(tasks[i].prompt_summary@, area),
            ]
        } by {
            assert(first[i] == tasks[i]);
            assert(lines[heading.len() + 2 * i] == entries[2 * i]);
            assert(lines[heading.len() + 1 + 2 * i] == entries[2 * i + 1]);
        }
    }
}

proof fn starting_details_are_shown(agents: Seq<(Seq<char>, Seq<char>)>, area: Area)
    ensures
        forall|i: int|
            #![trigger agents[i]]
            0 <= i < agents.len() ==> starting_lines(agents, area)[2 * i + 1] == seq![
                detail_span(agents[i].1, area),
            ],
    decreases agents.len(),
{
    starting_lines_are_pairs(agents, area);
    if agents.len() > 0 {
        let head = agents.drop_last();
        starting_details_are_shown(head, area);
        starting_lines_are_pairs(head, area);
        let before = starting_lines(head, area);
        let all = starting_lines(agents, area);
        assert forall|i: int| #![trigger agents[i]] 0 <= i < agents.len() implies all[2 * i + 1]
            == seq![detail_span(agents[i].1, area)] by {
            if i < head.len() {
                assert(head[i] == agents[i]);
                assert(all[2 * i + 1] == before[2 * i + 1]);
            }
        }
    }
}

proof fn agent_details_are_shown(agents: Seq<AgentEntry>, area: Area)
    ensures
        forall|i: int|
            #![trigger agents[i]]
            0 <= i < agents.len() ==> agent_entry_lines(agents, area)[2 * i + 1] == seq![
                detail_span(agents[i].objective@, area),
            ],
    decreases agents.len(),
{
    agent_entry_lines_are_pairs(agents, area);
    if agents.len() > 0 {
        let head = agents.drop_last();
        agent_details_are_shown(head, area);
        agent_entry_lines_are_pairs(head, area);
        let before = agent_entry_lines(head, area);
        let all = agent_entry_lines(agents, area);
        assert forall|i: int| #![trigger agents[i]] 0 <= i < agents.len() implies all[2 * i + 1]
            == seq![detail_span(agents[i].objective@, area)] by {
            if i < head.len() {
                assert(head[i] == agents[i]);
                assert(all[2 * i + 1] == before[2 * i + 1]);
            }
        }
    }
}

/// The agent panel counts every agent once: those with a report, and those that
/// only sent word. It shows how many run, an agent without a report among them,
/// or how many are done once none does; then two lines for each agent as far as
/// there is room, those without a report first; and how many more there are.
pub proof fn agent_panel_shows_the_agents(panel: AgentPanel, area: Area)
    ensures
        ({
            let cache = panel.cache@;
            let starting = panel.progress@.filter(
                |p: (String, String)| is_without_report(cache, p),
            );
            let total = (cache.len() + starting.len()) as nat;
            let running = (cache.filter(|a: AgentEntry| a.status is Running).len()
                + starting.len()) as nat;
            let lines = agent_lines(panel, area);
            let n = room(area, 1);
            let first: int = if n < starting.len() {
                n as int
            } else {
                starting.len() as int
            };
            let second: int = if n - first < cache.len() {
                n - first
            } else {
                cache.len() as int
            };
            &&& total == 0 ==> lines == seq![
                seq![plain_span("No agents"@, None, Tone::TextMuted, false)],
            ]
            &&& total > 0 && running > 0 ==> lines[0] == seq![
                plain_span(decimal(running) + " running"@, None, Tone::Sky, true),
                plain_span(" / "@ + decimal(total), None, Tone::TextMuted, false),
            ]
            &&& total > 0 && running == 0 ==> lines[0] == seq![
                plain_span(decimal(total) + " done"@, None, Tone::StatusSuccess, false),
            ]
            &&& total > 0 ==> forall|i: int|
                #![trigger starting[i]]
                0 <= i < first ==> {
                    &&& lines[1 + 2 * i] == seq![starting_span(starting[i].0@, area)]
                    &&& lines[2 + 2 * i] == seq![detail_span(starting[i].1@, area)]
                }
            &&& total > 0 ==> forall|i: int|
                #![trigger cache[i]]
                0 <= i < second ==> {
                    &&& lines[1 + 2 * first + 2 * i] == seq![agent_span(cache[i], area)]
                    &&& lines[2 + 2 * first + 2 * i] == seq![
                        detail_span(cache[i].objective@, area),
                    ]
                }
            &&& total > 0 && first + second == total ==> lines.len() == 1 + 2 * total
            &&& total > first + second ==> {
                &&& lines.len() == 2 + 2 * first + 2 * second
                &&& lines[1 + 2 * first + 2 * second] == seq![
                    plain_span(
                        "+"@ + decimal((total - first - second) as nat) + " more agents"@,
                        None,
                        Tone::TextMuted,
                        false,
                    ),
                ]
            }
        }),
{
    let cache = panel.cache@;
    let starting = panel.progress@.filter(|p: (String, String)| is_without_report(cache, p));
    let words = unreported(cache, panel.progress@);
    starting_agents_have_no_report(cache, panel.progress@);
    running_agents_are_counted(cache);
    more_lines_join();
    assert(words.len() == starting.len());
    let total = (cache.len() + starting.len()) as nat;
    if total > 0 {
        let lines = agent_lines(panel, area);
        let n = room(area, 1);
        let first = first_of(words, n);
        let settled = first_of(cache, (n - first.len()) as nat);
        let above = starting_lines(first, area);
        let below = agent_entry_lines(settled, area);
        starting_lines_are_pairs(first, area);
        starting_details_are_shown(first, area);
        agent_entry_lines_are_pairs(settled, area);
        agent_details_are_shown(settled, area);
        let k = first.len() as int;
        assert forall|i: int| #![trigger starting[i]] 0 <= i < k implies {
            &&& lines[1 + 2 * i] == seq![starting_span(starting[i].0@, area)]
            &&& lines[2 + 2 * i] == seq![detail_span(starting[i].1@, area)]
        } by {
            assert(words[i] == (starting[i].0@, starting[i].1@));
            assert(first[i] == words[i]);
            assert(lines[1 + 2 * i] == above[2 * i]);
            assert(lines[2 + 2 * i] == above[2 * i + 1]);
        }
        assert forall|i: int| #![trigger cache[i]] 0 <= i < settled.len() implies {
            &&& lines[1 + 2 * k + 2 * i] == seq![agent_span(cache[i], area)]
            &&& lines[2 + 2 * k + 2 * i] == seq![detail_span(cache[i].objective@, area)]
        } by {
            assert(settled[i] == cache[i]);
            assert(lines[1 + 2 * k + 2 * i] == below[2 * i]);
            assert(lines[2 + 2 * k + 2 * i] == below[2 * i + 1]);
        }
    }
}

/// A panel is framed where there are at least four cells by three: its lines
/// and its area are kept, and its title stands between two spaces.
pub proof fn panel_is_framed_whole(area: Area, title: Seq<char>, lines: Seq<Seq<SpanView>>)
    ensures
        area.width < 4 || area.height < 3 ==> section(area, title, lines) is None,
        area.width >= 4 && area.height >= 3 ==> (section(area, title, lines) matches Some(panel)
            && panel.area == area && panel.lines == lines && panel.title == (SpanView {
            pieces: seq![
                PieceView::Plain(" "@),
                PieceView::Clipped {
                    text: title,
                    width: if area.width >= 5 {
                        (area.width - 4) as usize
                    } else {
                        1
                    },
                },
                PieceView::Plain(" "@),
            ],
            clip: None,
            tone: Tone::SectionTitle,
            bold: true,
        })),
{
}

/// Each panel shows its own part of the state under its own title: in the whole
/// area, where it has the focus, or in its row.
pub proof fn panels_show_their_parts(area: Area, rows: Seq<Area>, state: SidebarState)
    ensures
        state.focus == SidebarFocus::Plan ==> focused(area, state) == section(
            area,
            "Plan"@,
            plan_lines(state.plan, area),
        ),
        state.focus == SidebarFocus::Todos ==> focused(area, state) == section(
            area,
            "Todos"@,
            todo_lines(state.todos, area),
        ),
        state.focus == SidebarFocus::Tasks ==> focused(area, state) == section(
            area,
            "Tasks"@,
            task_lines(state.tasks, area),
        ),
        state.focus == SidebarFocus::Agents ==> focused(area, state) == section(
            area,
            "Agents"@,
            agent_lines(state.agents, area),
        ),
        stacked(rows, state) == listed(section(rows[0], "Plan"@, plan_lines(state.plan, rows[0])))
            + listed(section(rows[1], "Todos"@, todo_lines(state.todos, rows[1]))) + listed(
            section(rows[2], "Tasks"@, task_lines(state.tasks, rows[2])),
        ) + listed(section(rows[3], "Agents"@, agent_lines(state.agents, rows[3]))),
        panel_shares() == seq![
            Share::Percentage(25),
            Share::Percentage(25),
            Share::Percentage(25),
            Share::Min(6),
        ],
        forall|p: Option<PanelView>| (#[trigger] listed(p)).len() == if p is Some {
            1nat
        } else {
            0nat
        },
        forall|p: PanelView| (#[trigger] listed(Some(p)))[0] == p,
{
}

/// Pieces, spans, lines and panels are seen whole.
pub proof fn panels_are_seen_whole(
    text: String,
    width: usize,
    span: Span,
    line: Line,
    panel: Panel,
    panels: Seq<Panel>,
)
    ensures
        Piece::Plain(text)@ == PieceView::Plain(text@),
        (Piece::Clipped { text, width })@ == (PieceView::Clipped { text: text@, width }),
        span@.pieces.len() == span.pieces@.len(),
        forall|i: int| 0 <= i < span.pieces@.len() ==> #[trigger] span@.pieces[i] == span.pieces@[i]@,
        span@.clip == span.clip,
        span@.tone == span.tone,
        span@.bold == span.bold,
        line@.len() == line.spans@.len(),
        forall|i: int| 0 <= i < line.spans@.len() ==> #[trigger] line@[i] == line.spans@[i]@,
        panel@.area == panel.area,
        panel@.title == panel.title@,
        panel@.lines.len() == panel.lines@.len(),
        forall|i: int| 0 <= i < panel.lines@.len() ==> #[trigger] panel@.lines[i] == panel.lines@[i]@,
        panel_view(Some(panel)) == Some(panel@),
        panel_view(None) is None,
        panel_views(panels).len() == panels.len(),
        forall|i: int| 0 <= i < panels.len() ==> #[trigger] panel_views(panels)[i] == panels[i]@,
{
}

/// Every panel shows its own part of the state under its own title, whatever has
/// the focus, and nothing but the largest counts stops it.
pub proof fn panels_show_their_parts_whatever_the_focus(area: Area, state: SidebarState)
    ensures
        plan_panel(area, state) == section(area, "Plan"@, plan_lines(state.plan, area)),
        todo_panel(area, state) == section(area, "Todos"@, todo_lines(state.todos, area)),
        task_panel(area, state) == section(area, "Tasks"@, task_lines(state.tasks, area)),
        agent_panel(area, state) == section(area, "Agents"@, agent_lines(state.agents, area)),
        state_fits(state) <==> {
            &&& state.plan matches Some(p) ==> p.pending + p.in_progress + p.completed
                <= usize::MAX
            &&& state.agents.cache@.len() + state.agents.progress@.len() <= usize::MAX
        },
{
}

} // verus!
