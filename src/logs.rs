//! The merged log of several targets: line formats, display names, and the
//! state of each target's worker as the consumer sees it.
use vstd::prelude::*;
use crate::printer::{color_println_fmt, colored, Color};
use crate::text::{clean_name, cleaned_name};

verus! {

/// The stream of a follow-mode log process that a line came from.
#[derive(Debug, Clone, Copy, PartialEq, Eq, Structural)]
pub enum StreamKind {
    Stdout,
    Stderr,
}

/// Where a line of the merged log comes from: one of a target's two streams,
/// or the failure to start streaming that target.
#[derive(Debug, Clone, Copy, PartialEq, Eq, Structural)]
pub enum LineKind {
    Output(StreamKind),
    SpawnError,
}

/// One line of the merged log, attributed to its target.
pub struct LogLine {
    pub timestamp: String,
    pub source: String,
    pub kind: LineKind,
    pub text: String,
}

/// A line tagged with its time and source: `[timestamp | source] text`, with
/// the timestamp in cyan and the source in `source_color` when colored.
pub open spec fn tagged_text(
    ts: Seq<char>,
    source: Seq<char>,
    source_color: Color,
    text: Seq<char>,
    use_color: bool,
) -> Seq<char> {
    if use_color {
        "["@ + colored(Color::Cyan, ts) + " | "@ + colored(source_color, source) + "] "@ + text
    } else {
        "["@ + ts + " | "@ + source + "] "@ + text
    }
}

/// The text of a container's output line: its name in green when colored.
pub open spec fn output_text(ts: Seq<char>, name: Seq<char>, text: Seq<char>, use_color: bool) -> Seq<
    char,
> {
    tagged_text(ts, name, Color::Green, text, use_color)
}

/// The text that stands for a target whose log stream could not be started,
/// in red when colored.
pub open spec fn error_text(name: Seq<char>, use_color: bool) -> Seq<char> {
    let msg = "[ERROR] - Failed to log "@ + name;
    if use_color {
        colored(Color::Red, msg)
    } else {
        msg
    }
}

/// The text of a log line as the consumer shows it.
pub open spec fn rendered(l: LogLine, use_color: bool) -> Seq<char> {
    match l.kind {
        LineKind::Output(_) => output_text(l.timestamp@, l.source@, l.text@, use_color),
        LineKind::SpawnError => error_text(l.source@, use_color),
    }
}

/// Formats a line tagged with its time and source.
pub fn format_tagged_line(
    timestamp: &str,
    source: &str,
    source_color: Color,
    text: &str,
    use_color: bool,
) -> (r: String)
    ensures
        r@ == tagged_text(timestamp@, source@, source_color, text@, use_color),
{
    let s = String::from_str("[");
    let s = if use_color {
        let ts = color_println_fmt(Color::Cyan, timestamp);
        let src = color_println_fmt(source_color, source);
        s.concat(ts.as_str()).concat(" | ").concat(src.as_str())
    } else {
        s.concat(timestamp).concat(" | ").concat(source)
    };
    s.concat("] ").concat(text)
}

/// Formats one output line of a target's log.
pub fn format_log_line(timestamp: &str, name: &str, text: &str, use_color: bool) -> (r: String)
    ensures
        r@ == output_text(timestamp@, name@, text@, use_color),
{
    format_tagged_line(timestamp, name, Color::Green, text, use_color)
}

/// Formats the line that reports that a target's log could not be followed.
pub fn format_error_line(name: &str, use_color: bool) -> (r: String)
    ensures
        r@ == error_text(name@, use_color),
{
    let msg = String::from_str("[ERROR] - Failed to log ").concat(name);
    if use_color {
        color_println_fmt(Color::Red, msg.as_str())
    } else {
        msg
    }
}

impl LogLine {
    /// The line as the consumer shows it.
    pub fn render(&self, use_color: bool) -> (r: String)
        ensures
            r@ == rendered(*self, use_color),
    {
        match self.kind {
            LineKind::Output(_) => format_log_line(
                self.timestamp.as_str(),
                self.source.as_str(),
                self.text.as_str(),
                use_color,
            ),
            LineKind::SpawnError => format_error_line(self.source.as_str(), use_color),
        }
    }
}

/// The name under which a target's lines are shown: the target itself, unless
/// it is a raw id whose lookup printed a name.
pub open spec fn display_name_of(
    target: Seq<char>,
    is_container_id: bool,
    lookup: Option<Seq<char>>,
) -> Seq<char> {
    if is_container_id && lookup is Some && clean_name(lookup->Some_0).len() > 0 {
        clean_name(lookup->Some_0)
    } else {
        target
    }
}

/// Resolves the name to show for a target. `lookup` is what the runtime
/// printed when asked for the name of the id, or `None` when that failed; a
/// failed or empty lookup falls back to the target itself.
pub fn display_name(target: &str, is_container_id: bool, lookup: Option<&str>) -> (r: String)
    ensures
        r@ == display_name_of(target@, is_container_id, match lookup {
            Some(s) => Some(s@),
            None => None,
        }),
{
    if is_container_id {
        if let Some(out) = lookup {
            let name = cleaned_name(out);
            if name.as_str().unicode_len() > 0 {
                return name;
            }
        }
    }
    String::from_str(target)
}

/// Where a target's worker stands.
#[derive(Debug, Clone, Copy, PartialEq, Eq, Structural)]
pub enum WorkerState {
    /// Its log process has not been started yet.
    Starting,
    /// Its log process runs; each flag says whether that stream may still send lines.
    Streaming { stdout_open: bool, stderr_open: bool },
    /// It has ended: its process failed to start, or both streams closed.
    Done,
}

/// What a worker reports to the consumer.
pub enum WorkerEvent {
    /// The log process started.
    Started,
    /// The log process could not be started.
    SpawnFailed,
    /// One stream of the log process gave a line, read at `timestamp`.
    Line { stream: StreamKind, timestamp: String, text: String },
    /// One stream of the log process ended.
    Closed(StreamKind),
}

/// Whether a stream of a streaming worker may still send lines.
pub open spec fn stream_open(st: WorkerState, k: StreamKind) -> bool {
    match st {
        WorkerState::Streaming { stdout_open, stderr_open } => match k {
            StreamKind::Stdout => stdout_open,
            StreamKind::Stderr => stderr_open,
        },
        _ => false,
    }
}

/// A worker's state after an event; an event that does not fit the state
/// leaves it as it is.
pub open spec fn next_state(st: WorkerState, e: WorkerEvent) -> WorkerState {
    match st {
        WorkerState::Starting => match e {
            WorkerEvent::Started => WorkerState::Streaming { stdout_open: true, stderr_open: true },
            WorkerEvent::SpawnFailed => WorkerState::Done,
            _ => st,
        },
        WorkerState::Streaming { stdout_open, stderr_open } => match e {
            WorkerEvent::Closed(StreamKind::Stdout) => if stderr_open {
                WorkerState::Streaming { stdout_open: false, stderr_open }
            } else {
                WorkerState::Done
            },
            WorkerEvent::Closed(StreamKind::Stderr) => if stdout_open {
                WorkerState::Streaming { stdout_open, stderr_open: false }
            } else {
                WorkerState::Done
            },
            _ => st,
        },
        WorkerState::Done => st,
    }
}

/// The line, if any, that an event hands to the consumer: a line of an open
/// stream, or the error line of a failed start, attributed to the worker's
/// target `name`.
pub open spec fn emitted(name: Seq<char>, st: WorkerState, e: WorkerEvent, r: Option<LogLine>) -> bool {
    match e {
        WorkerEvent::SpawnFailed => if st == WorkerState::Starting {
            r matches Some(l) && l.source@ == name && l.kind == LineKind::SpawnError
        } else {
            r is None
        },
        WorkerEvent::Line { stream, timestamp, text } => if stream_open(st, stream) {
            r matches Some(l) && l.source@ == name && l.kind == LineKind::Output(stream)
                && l.timestamp@ == timestamp@ && l.text@ == text@
        } else {
            r is None
        },
        _ => r is None,
    }
}

/// A worker ends only when its log process fails to start, or when a stream
/// of it closes after the other one already has: the merged log stays open
/// while any stream of a started target may still send lines. Once a worker
/// has ended, no event changes it again.
pub proof fn lemma_worker_ends_only_when_drained(st: WorkerState, e: WorkerEvent)
    ensures
        st != WorkerState::Done && next_state(st, e) == WorkerState::Done ==> (st
            == WorkerState::Starting && e is SpawnFailed) || (e is Closed && st is Streaming && !(
        stream_open(st, StreamKind::Stdout) && stream_open(st, StreamKind::Stderr))),
        st == WorkerState::Done ==> next_state(st, e) == WorkerState::Done,
{
}

/// The workers' states after a sequence of events, each event for the worker
/// at its index; an event for no worker changes nothing.
pub open spec fn states_after(st: Seq<WorkerState>, evs: Seq<(int, WorkerEvent)>) -> Seq<
    WorkerState,
>
    decreases evs.len(),
{
    if evs.len() == 0 {
        st
    } else {
        let p = states_after(st, evs.drop_last());
        let w = evs.last().0;
        if 0 <= w < p.len() {
            p.update(w, next_state(p[w], evs.last().1))
        } else {
            p
        }
    }
}

/// The line, if any, that an event hands to the consumer, as the worker's
/// index, the line's kind and its text, given the worker's state.
pub open spec fn shown(w: int, st: WorkerState, e: WorkerEvent) -> Option<(int, LineKind, Seq<char>)> {
    match e {
        WorkerEvent::SpawnFailed => if st == WorkerState::Starting {
            Some((w, LineKind::SpawnError, Seq::empty()))
        } else {
            None
        },
        WorkerEvent::Line { stream, timestamp, text } => if stream_open(st, stream) {
            Some((w, LineKind::Output(stream), text@))
        } else {
            None
        },
        _ => None,
    }
}

/// The lines that the consumer shows for a sequence of events, in order.
pub open spec fn lines_after(st: Seq<WorkerState>, evs: Seq<(int, WorkerEvent)>) -> Seq<
    (int, LineKind, Seq<char>),
>
    decreases evs.len(),
{
    if evs.len() == 0 {
        Seq::empty()
    } else {
        let p = states_after(st, evs.drop_last());
        let prev = lines_after(st, evs.drop_last());
        let w = evs.last().0;
        if 0 <= w < p.len() {
            match shown(w, p[w], evs.last().1) {
                Some(l) => prev.push(l),
                None => prev,
            }
        } else {
            prev
        }
    }
}

/// Whether the event is a line of a stream of one of `n` workers.
pub open spec fn line_for_worker(ev: (int, WorkerEvent), n: int) -> bool {
    0 <= ev.0 < n && ev.1 is Line
}

/// Whether a worker streams with both streams open.
pub open spec fn fully_open(st: WorkerState) -> bool {
    st == WorkerState::Streaming { stdout_open: true, stderr_open: true }
}

/// The line that a line event stands for: its worker, stream and text.
pub open spec fn line_of(ev: (int, WorkerEvent)) -> (int, LineKind, Seq<char>) {
    match ev.1 {
        WorkerEvent::Line { stream, timestamp, text } => (ev.0, LineKind::Output(stream), text@),
        _ => (ev.0, LineKind::SpawnError, Seq::empty()),
    }
}

/// While the workers that report lines stream with both streams open, each
/// line that any of them reports is shown exactly once, attributed to its
/// worker and stream, in the order of arrival: none is lost, none repeated,
/// and the lines of one worker's stream keep their order. The workers' states
/// do not change.
pub proof fn lemma_lines_pass_in_order(st: Seq<WorkerState>, evs: Seq<(int, WorkerEvent)>)
    requires
        forall|i: int| 0 <= i < evs.len() ==> line_for_worker(#[trigger] evs[i], st.len() as int),
        forall|i: int| 0 <= i < evs.len() ==> fully_open(st[(#[trigger] evs[i]).0]),
    ensures
        states_after(st, evs) == st,
        lines_after(st, evs) == evs.map_values(|ev: (int, WorkerEvent)| line_of(ev)),
    decreases evs.len(),
{
    if evs.len() > 0 {
        let p = evs.drop_last();
        assert forall|i: int| 0 <= i < p.len() implies line_for_worker(
            #[trigger] p[i],
            st.len() as int,
        ) && fully_open(st[p[i].0]) by {
            assert(p[i] == evs[i]);
        }
        lemma_lines_pass_in_order(st, p);
        let last = evs[evs.len() - 1];
        assert(line_for_worker(last, st.len() as int));
        assert(fully_open(st[last.0]));
        assert(next_state(st[last.0], last.1) == st[last.0]);
        assert(st.update(last.0, st[last.0]) =~= st);
        assert(evs.map_values(|ev: (int, WorkerEvent)| line_of(ev)) =~= p.map_values(
            |ev: (int, WorkerEvent)| line_of(ev),
        ).push(line_of(last)));
    } else {
        assert(evs.map_values(|ev: (int, WorkerEvent)| line_of(ev)) =~= Seq::<
            (int, LineKind, Seq<char>),
        >::empty());
    }
}

/// Events that follow one another act in turn.
pub proof fn lemma_events_compose(
    st: Seq<WorkerState>,
    a: Seq<(int, WorkerEvent)>,
    b: Seq<(int, WorkerEvent)>,
)
    ensures
        states_after(st, a + b) == states_after(states_after(st, a), b),
        lines_after(st, a + b) == lines_after(st, a) + lines_after(states_after(st, a), b),
    decreases b.len(),
{
    if b.len() == 0 {
        assert(a + b =~= a);
        assert(lines_after(st, a) + Seq::<(int, LineKind, Seq<char>)>::empty() =~= lines_after(
            st,
            a,
        ));
    } else {
        lemma_events_compose(st, a, b.drop_last());
        assert((a + b).drop_last() =~= a + b.drop_last());
        assert((a + b).last() == b.last());
        let mid = states_after(st, a);
        let l1 = lines_after(st, a);
        let l2 = lines_after(mid, b.drop_last());
        assert forall|x: (int, LineKind, Seq<char>)| (l1 + l2).push(x) =~= l1 + l2.push(x) by {}
    }
}

/// A worker's state once its log process started (`ok`) or failed to start.
pub open spec fn opened(ok: bool) -> WorkerState {
    if ok {
        WorkerState::Streaming { stdout_open: true, stderr_open: true }
    } else {
        WorkerState::Done
    }
}

/// The report of each worker, in order, on starting its log process: started
/// where `oks` says so, else failed.
pub open spec fn opening(oks: Seq<bool>) -> Seq<(int, WorkerEvent)>
    decreases oks.len(),
{
    if oks.len() == 0 {
        Seq::empty()
    } else {
        opening(oks.drop_last()).push(
            (
                oks.len() - 1,
                if oks.last() {
                    WorkerEvent::Started
                } else {
                    WorkerEvent::SpawnFailed
                },
            ),
        )
    }
}

/// The error lines of the workers whose log process failed to start, in order.
pub open spec fn error_lines(oks: Seq<bool>) -> Seq<(int, LineKind, Seq<char>)>
    decreases oks.len(),
{
    if oks.len() == 0 {
        Seq::empty()
    } else if oks.last() {
        error_lines(oks.drop_last())
    } else {
        error_lines(oks.drop_last()).push((oks.len() - 1, LineKind::SpawnError, Seq::empty()))
    }
}

/// The end of both streams of each of the first `n` workers, in order.
pub open spec fn closing(n: nat) -> Seq<(int, WorkerEvent)>
    decreases n,
{
    if n == 0 {
        Seq::empty()
    } else {
        closing((n - 1) as nat).push((n - 1, WorkerEvent::Closed(StreamKind::Stdout))).push(
            (n - 1, WorkerEvent::Closed(StreamKind::Stderr)),
        )
    }
}

proof fn lemma_opening(oks: Seq<bool>, n: nat, k: int)
    requires
        oks.len() == n,
        0 <= k <= n,
    ensures
        states_after(Seq::new(n, |w: int| WorkerState::Starting), opening(oks.take(k))) == Seq::new(
            n,
            |w: int|
                if w < k {
                    opened(oks[w])
                } else {
                    WorkerState::Starting
                },
        ),
        lines_after(Seq::new(n, |w: int| WorkerState::Starting), opening(oks.take(k)))
            == error_lines(oks.take(k)),
    decreases k,
{
    let st = Seq::new(n, |w: int| WorkerState::Starting);
    if k == 0 {
        assert(oks.take(0) =~= Seq::<bool>::empty());
        assert(opening(oks.take(0)) == Seq::<(int, WorkerEvent)>::empty());
        assert(error_lines(oks.take(0)) == Seq::<(int, LineKind, Seq<char>)>::empty());
        assert(st =~= Seq::new(
            n,
            |w: int|
                if w < 0 {
                    opened(oks[w])
                } else {
                    WorkerState::Starting
                },
        ));
    } else {
        lemma_opening(oks, n, k - 1);
        assert(oks.take(k).drop_last() =~= oks.take(k - 1));
        assert(oks.take(k).last() == oks[k - 1]);
        let ev = if oks[k - 1] {
            WorkerEvent::Started
        } else {
            WorkerEvent::SpawnFailed
        };
        let o = opening(oks.take(k - 1));
        assert(opening(oks.take(k)) == o.push((k - 1, ev)));
        assert(o.push((k - 1, ev)).drop_last() =~= o);
        assert(o.push((k - 1, ev)).last() == (k - 1, ev));
        assert(error_lines(oks.take(k)) == if oks[k - 1] {
            error_lines(oks.take(k - 1))
        } else {
            error_lines(oks.take(k - 1)).push((k - 1, LineKind::SpawnError, Seq::empty()))
        });
        let prev = Seq::new(
            n,
            |w: int|
                if w < k - 1 {
                    opened(oks[w])
                } else {
                    WorkerState::Starting
                },
        );
        assert(prev.update(k - 1, opened(oks[k - 1])) =~= Seq::new(
            n,
            |w: int|
                if w < k {
                    opened(oks[w])
                } else {
                    WorkerState::Starting
                },
        ));
    }
}

proof fn lemma_closing(st: Seq<WorkerState>, k: nat)
    requires
        k <= st.len(),
        forall|w: int| 0 <= w < st.len() ==> fully_open(#[trigger] st[w]) || st[w] == WorkerState::Done,
    ensures
        states_after(st, closing(k)) == Seq::new(
            st.len(),
            |w: int|
                if w < k {
                    WorkerState::Done
                } else {
                    st[w]
                },
        ),
        lines_after(st, closing(k)) == Seq::<(int, LineKind, Seq<char>)>::empty(),
    decreases k,
{
    if k == 0 {
        assert(st =~= Seq::new(
            st.len(),
            |w: int|
                if w < 0 {
                    WorkerState::Done
                } else {
                    st[w]
                },
        ));
    } else {
        let j = k - 1;
        lemma_closing(st, j as nat);
        let c1 = closing(j as nat).push((j, WorkerEvent::Closed(StreamKind::Stdout)));
        assert(closing(k) == c1.push((j, WorkerEvent::Closed(StreamKind::Stderr))));
        assert(c1.push((j, WorkerEvent::Closed(StreamKind::Stderr))).drop_last() =~= c1);
        assert(c1.drop_last() =~= closing(j as nat));
        assert(lines_after(st, c1) == lines_after(st, closing(j as nat)));
        let s0 = Seq::new(
            st.len(),
            |w: int|
                if w < j {
                    WorkerState::Done
                } else {
                    st[w]
                },
        );
        let s1 = s0.update(j, next_state(s0[j], WorkerEvent::Closed(StreamKind::Stdout)));
        assert(states_after(st, c1) == s1);
        assert(s1.update(j, next_state(s1[j], WorkerEvent::Closed(StreamKind::Stderr))) =~= Seq::new(
            st.len(),
            |w: int|
                if w < k {
                    WorkerState::Done
                } else {
                    st[w]
                },
        ));
    }
}

/// A whole run of the merged log: each of `n` workers reports whether its log
/// process started (`oks`), then the started workers report their lines in
/// any interleaving, then every stream ends. The run is over (every worker
/// is done), and the consumer was shown exactly one error line for each
/// worker that failed to start, then every reported line once, attributed to
/// its worker and stream, in the order of arrival. A failed start takes no
/// line away from the other workers.
pub proof fn lemma_whole_run(oks: Seq<bool>, evs: Seq<(int, WorkerEvent)>)
    requires
        forall|i: int| 0 <= i < evs.len() ==> line_for_worker(#[trigger] evs[i], oks.len() as int),
        forall|i: int| 0 <= i < evs.len() ==> oks[(#[trigger] evs[i]).0],
    ensures
        ({
            let st = Seq::new(oks.len(), |w: int| WorkerState::Starting);
            let run = opening(oks) + evs + closing(oks.len());
            &&& states_after(st, run) == Seq::new(oks.len(), |w: int| WorkerState::Done)
            &&& lines_after(st, run) == error_lines(oks) + evs.map_values(
                |ev: (int, WorkerEvent)| line_of(ev),
            )
        }),
{
    let n = oks.len();
    let st = Seq::new(n, |w: int| WorkerState::Starting);
    lemma_opening(oks, n, n as int);
    assert(oks.take(n as int) =~= oks);
    let s1 = Seq::new(
        n,
        |w: int|
            if w < n {
                opened(oks[w])
            } else {
                WorkerState::Starting
            },
    );
    lemma_lines_pass_in_order(s1, evs);
    lemma_events_compose(st, opening(oks), evs);
    lemma_closing(s1, n);
    lemma_events_compose(st, opening(oks) + evs, closing(n));
    assert(Seq::new(
        n,
        |w: int|
            if w < n {
                WorkerState::Done
            } else {
                s1[w]
            },
    ) =~= Seq::new(n, |w: int| WorkerState::Done));
    let m = evs.map_values(|ev: (int, WorkerEvent)| line_of(ev));
    assert(error_lines(oks) + m + Seq::<(int, LineKind, Seq<char>)>::empty() =~= error_lines(oks)
        + m);
}

/// The consumer's side of the merged log: one worker per target, each
/// reporting events, and the merged stream is over when every worker is done.
pub struct LogMux {
    names: Vec<String>,
    states: Vec<WorkerState>,
}

impl LogMux {
    /// The display names of the targets, in order.
    pub closed spec fn names(&self) -> Seq<Seq<char>> {
        self.names@.map_values(|n: String| n@)
    }

    /// The state of each target's worker.
    pub closed spec fn states(&self) -> Seq<WorkerState> {
        self.states@
    }

    /// Each target has a name and a state.
    pub closed spec fn wf(&self) -> bool {
        self.names@.len() == self.states@.len()
    }

    /// Whether every worker has ended.
    pub open spec fn finished(&self) -> bool {
        forall|i: int| 0 <= i < self.states().len() ==> self.states()[i] == WorkerState::Done
    }

    /// A multiplexer for the targets shown under `names`, none of them started.
    pub fn new(names: Vec<String>) -> (r: LogMux)
        ensures
            r.wf(),
            r.names() == names@.map_values(|n: String| n@),
            r.states() == Seq::new(names@.len(), |i: int| WorkerState::Starting),
    {
        let mut states: Vec<WorkerState> = Vec::new();
        let mut i: usize = 0;
        while i < names.len()
            invariant
                i <= names@.len(),
                states@ == Seq::new(i as nat, |j: int| WorkerState::Starting),
            decreases names@.len() - i,
        {
            states.push(WorkerState::Starting);
            i = i + 1;
            assert(states@ =~= Seq::new(i as nat, |j: int| WorkerState::Starting));
        }
        LogMux { names, states }
    }

    /// The number of targets.
    pub fn len(&self) -> (r: usize)
        requires
            self.wf(),
        ensures
            r == self.states().len(),
            r == self.names().len(),
    {
        self.states.len()
    }

    /// Applies a worker's event, and returns the line it hands to the consumer.
    pub fn handle(&mut self, worker: usize, event: WorkerEvent) -> (r: Option<LogLine>)
        requires
            old(self).wf(),
            worker < old(self).states().len(),
        ensures
            final(self).wf(),
            final(self).names() == old(self).names(),
            final(self).states() == old(self).states().update(
                worker as int,
                next_state(old(self).states()[worker as int], event),
            ),
            emitted(old(self).names()[worker as int], old(self).states()[worker as int], event, r),
            match shown(worker as int, old(self).states()[worker as int], event) {
                Some(x) => r matches Some(l) && x == (worker as int, l.kind, l.text@),
                None => r is None,
            },
    {
        let st = self.states[worker];
        let ghost e = event;
        let (next, out) = match event {
            WorkerEvent::Started => match st {
                WorkerState::Starting => (
                    WorkerState::Streaming { stdout_open: true, stderr_open: true },
                    None,
                ),
                _ => (st, None),
            },
            WorkerEvent::SpawnFailed => match st {
                WorkerState::Starting => (
                    WorkerState::Done,
                    Some(
                        LogLine {
                            timestamp: String::new(),
                            source: self.names[worker].clone(),
                            kind: LineKind::SpawnError,
                            text: String::new(),
                        },
                    ),
                ),
                _ => (st, None),
            },
            WorkerEvent::Line { stream, timestamp, text } => {
                let open = match st {
                    WorkerState::Streaming { stdout_open, stderr_open } => match stream {
                        StreamKind::Stdout => stdout_open,
                        StreamKind::Stderr => stderr_open,
                    },
                    _ => false,
                };
                if open {
                    (
                        st,
                        Some(
                            LogLine {
                                timestamp,
                                source: self.names[worker].clone(),
                                kind: LineKind::Output(stream),
                                text,
                            },
                        ),
                    )
                } else {
                    (st, None)
                }
            },
            WorkerEvent::Closed(stream) => match st {
                WorkerState::Streaming { stdout_open, stderr_open } => match stream {
                    StreamKind::Stdout => if stderr_open {
                        (WorkerState::Streaming { stdout_open: false, stderr_open }, None)
                    } else {
                        (WorkerState::Done, None)
                    },
                    StreamKind::Stderr => if stdout_open {
                        (WorkerState::Streaming { stdout_open, stderr_open: false }, None)
                    } else {
                        (WorkerState::Done, None)
                    },
                },
                _ => (st, None),
            },
        };
        assert(next == next_state(st, e));
        self.states.set(worker, next);
        out
    }

    /// Whether every worker has ended, so that no line can come any more.
    pub fn is_finished(&self) -> (r: bool)
        requires
            self.wf(),
        ensures
            r == self.finished(),
    {
        let mut i: usize = 0;
        while i < self.states.len()
            invariant
                i <= self.states@.len(),
                forall|j: int| 0 <= j < i ==> self.states@[j] == WorkerState::Done,
            decreases self.states@.len() - i,
        {
            if self.states[i] != WorkerState::Done {
                return false;
            }
            i = i + 1;
        }
        true
    }
}

} // verus!
