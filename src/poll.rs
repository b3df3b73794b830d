use vstd::prelude::*;

verus! {

/// One line of a log entry, as the logs service returns it.
pub struct LogLine {
    pub time: Option<String>,
    pub line: Option<String>,
}

/// One entry of the logs service: a batch of lines, oldest first.
pub struct LogEntry {
    pub log_lines: Option<Vec<LogLine>>,
}

/// An entry without its lines, or a line without its time or its text.
#[derive(Debug, Clone, Copy, PartialEq, Eq, Structural)]
pub struct IncompleteLog;

pub open spec fn line_complete(l: LogLine) -> bool {
    l.time is Some && l.line is Some
}

pub open spec fn entry_complete(e: LogEntry) -> bool {
    &&& e.log_lines is Some
    &&& forall|j: int|
        0 <= j < e.log_lines->Some_0@.len() ==> line_complete(
            #[trigger] e.log_lines->Some_0@[j],
        )
}

pub open spec fn entries_complete(entries: Seq<LogEntry>) -> bool {
    forall|i: int| 0 <= i < entries.len() ==> entry_complete(#[trigger] entries[i])
}

pub open spec fn entry_lines(e: LogEntry) -> Seq<LogLine> {
    match e.log_lines {
        Some(v) => v@,
        None => Seq::empty(),
    }
}

/// The lines of all entries in the order they are printed: the service
/// returns the newest entry first, so the entries are taken last to first.
pub open spec fn printed_lines(entries: Seq<LogEntry>) -> Seq<LogLine>
    decreases entries.len(),
{
    if entries.len() == 0 {
        Seq::empty()
    } else {
        printed_lines(entries.drop_first()) + entry_lines(entries[0])
    }
}

pub open spec fn line_text(l: LogLine) -> Seq<char> {
    l.line->Some_0@
}

pub open spec fn line_time(l: LogLine) -> Seq<char> {
    l.time->Some_0@
}

/// The time of the last line of `lines`, empty where there is none.
pub open spec fn last_time(lines: Seq<LogLine>) -> Seq<char> {
    if lines.len() == 0 {
        Seq::empty()
    } else {
        line_time(lines.last())
    }
}

/// The cursor after a fetch that returned `entries`: unchanged where nothing
/// came back, else the time of the last line printed.
pub open spec fn next_cursor(cursor: Seq<char>, entries: Seq<LogEntry>) -> Seq<char> {
    if entries.len() == 0 {
        cursor
    } else {
        last_time(printed_lines(entries))
    }
}

proof fn lemma_printed_step(entries: Seq<LogEntry>, i: int)
    requires
        0 < i <= entries.len(),
    ensures
        printed_lines(entries.subrange(i - 1, entries.len() as int)) == printed_lines(
            entries.subrange(i, entries.len() as int),
        ) + entry_lines(entries[i - 1]),
{
    assert(entries.subrange(i - 1, entries.len() as int).drop_first() =~= entries.subrange(
        i,
        entries.len() as int,
    ));
}

/// The texts to print for `entries`, in chronological order, and the time of
/// the last of them (empty where no entry holds a line). Fails where an entry
/// or a line lacks a part.
pub fn collect_new_lines(entries: &Vec<LogEntry>) -> (r: Result<(Vec<String>, String), IncompleteLog>)
    ensures
        r is Ok <==> entries_complete(entries@),
        r matches Ok((texts, last)) ==> {
            &&& texts@.map_values(|s: String| s@) == printed_lines(entries@).map_values(
                |l: LogLine| line_text(l),
            )
            &&& last@ == last_time(printed_lines(entries@))
        },
{
    let ghost all = entries@;
    let ghost n = entries@.len() as int;
    let mut texts: Vec<String> = Vec::new();
    let mut last = String::new();
    let mut i: usize = entries.len();
    proof {
        assert(all.subrange(n, n) =~= Seq::<LogEntry>::empty());
    }
    while i > 0
        invariant
            i <= entries@.len(),
            all == entries@,
            n == all.len(),
            forall|k: int| i <= k < n ==> entry_complete(#[trigger] all[k]),
            texts@.len() == printed_lines(all.subrange(i as int, n)).len(),
            forall|k: int|
                0 <= k < texts@.len() ==> #[trigger] texts@[k]@ == line_text(
                    printed_lines(all.subrange(i as int, n))[k],
                ),
            last@ == last_time(printed_lines(all.subrange(i as int, n))),
        decreases i,
    {
        let entry = &entries[i - 1];
        proof {
            lemma_printed_step(all, i as int);
        }
        let ghost before = printed_lines(all.subrange(i as int, n));
        let lines = match &entry.log_lines {
            Some(v) => v,
            None => {
                return Err(IncompleteLog);
            },
        };
        let ghost ls = lines@;
        let mut j: usize = 0;
        while j < lines.len()
            invariant
                0 < i <= entries@.len(),
                all == entries@,
                n == all.len(),
                ls == lines@,
                entry_lines(all[i - 1]) == ls,
                j <= ls.len(),
                forall|k: int| 0 <= k < j ==> line_complete(#[trigger] ls[k]),
                texts@.len() == before.len() + j,
                forall|k: int|
                    0 <= k < texts@.len() ==> #[trigger] texts@[k]@ == line_text(
                        (before + ls)[k],
                    ),
                last@ == last_time(before + ls.subrange(0, j as int)),
            decreases ls.len() - j,
        {
            let line = &lines[j];
            let text = match &line.line {
                Some(t) => t,
                None => {
                    return Err(IncompleteLog);
                },
            };
            let time = match &line.time {
                Some(t) => t,
                None => {
                    return Err(IncompleteLog);
                },
            };
            texts.push(text.clone());
            last = time.clone();
            proof {
                assert((before + ls.subrange(0, j + 1)).last() == ls[j as int]);
            }
            j = j + 1;
        }
        proof {
            assert(ls.subrange(0, j as int) =~= ls);
            assert(entry_complete(all[i - 1]));
        }
        i = i - 1;
    }
    proof {
        assert(all.subrange(0, n) =~= all);
        assert(texts@.map_values(|s: String| s@) =~= printed_lines(all).map_values(
            |l: LogLine| line_text(l),
        ));
    }
    Ok((texts, last))
}

/// The settings of one run of the command.
#[derive(Debug, Clone, Copy, PartialEq, Eq, Structural)]
pub struct PollConfig {
    /// Keep polling after the first fetch.
    pub follow: bool,
    /// Seconds to sleep between two fetches.
    pub interval_secs: u64,
    /// The most lines the first fetch asks for; later fetches ask for all.
    pub max_lines: Option<i32>,
    /// How far back the first fetch reaches, in seconds.
    pub since_secs: u64,
}

/// Where the poller stands.
#[derive(Debug, Clone, Copy, PartialEq, Eq, Structural)]
pub enum Phase {
    Fetching,
    Sleeping,
    Finished,
}

/// What the program running the poller does next.
pub enum PollAction {
    /// Ask the service for the entries after `since`, at most `max_lines` lines.
    Fetch { max_lines: Option<i32>, since: String },
    /// Wait this many seconds.
    Sleep { secs: u64 },
    /// Stop: there is nothing more to do.
    Stop,
}

/// The mathematical value of a [`PollAction`].
pub enum PollStep {
    Fetch { max_lines: Option<i32>, since: Seq<char> },
    Sleep { secs: u64 },
    Stop,
}

impl View for PollAction {
    type V = PollStep;

    open spec fn view(&self) -> PollStep {
        match self {
            PollAction::Fetch { max_lines, since } => PollStep::Fetch {
                max_lines: *max_lines,
                since: since@,
            },
            PollAction::Sleep { secs } => PollStep::Sleep { secs: *secs },
            PollAction::Stop => PollStep::Stop,
        }
    }
}

/// The mathematical value of a [`LogPoller`].
pub struct PollState {
    pub config: PollConfig,
    pub cursor: Seq<char>,
    pub started: bool,
    pub phase: Phase,
}

/// The state before the first fetch, with the cursor it starts from.
pub open spec fn initial_state(config: PollConfig, cursor: Seq<char>) -> PollState {
    PollState { config, cursor, started: false, phase: Phase::Fetching }
}

/// The action that a state asks for: the first fetch is bounded by
/// `max_lines`, later ones are not.
pub open spec fn step_of(s: PollState) -> PollStep {
    match s.phase {
        Phase::Fetching => PollStep::Fetch {
            max_lines: if s.started {
                None
            } else {
                s.config.max_lines
            },
            since: s.cursor,
        },
        Phase::Sleeping => PollStep::Sleep { secs: s.config.interval_secs },
        Phase::Finished => PollStep::Stop,
    }
}

/// The state after a fetch returned `entries`. Incomplete entries end the
/// run; otherwise the cursor moves on, and the poller sleeps where it
/// follows the logs and finishes where it does not.
pub open spec fn after_fetch(s: PollState, entries: Seq<LogEntry>) -> PollState {
    if !entries_complete(entries) {
        PollState { phase: Phase::Finished, ..s }
    } else {
        PollState {
            cursor: next_cursor(s.cursor, entries),
            started: true,
            phase: if s.config.follow {
                Phase::Sleeping
            } else {
                Phase::Finished
            },
            ..s
        }
    }
}

/// The state after the sleep between two fetches.
pub open spec fn after_sleep(s: PollState) -> PollState {
    PollState { phase: Phase::Fetching, ..s }
}

pub open spec fn phase_rank(p: Phase) -> nat {
    match p {
        Phase::Sleeping => 1,
        _ => 0,
    }
}

/// The actions a poller in state `s` asks for when each fetch returns the
/// next of `batches`; where the batches run out, the trace ends with the
/// fetch that is still waiting for its answer.
pub open spec fn trace(s: PollState, batches: Seq<Seq<LogEntry>>) -> Seq<PollStep>
    decreases batches.len(), phase_rank(s.phase),
{
    match s.phase {
        Phase::Finished => seq![PollStep::Stop],
        Phase::Sleeping => seq![step_of(s)] + trace(after_sleep(s), batches),
        Phase::Fetching => if batches.len() == 0 {
            seq![step_of(s)]
        } else {
            seq![step_of(s)] + trace(after_fetch(s, batches[0]), batches.drop_first())
        },
    }
}

pub open spec fn is_fetch(step: PollStep) -> bool {
    step is Fetch
}

/// The decisions of the `logs` command: when to fetch, from which cursor,
/// when to sleep and when to stop.
pub struct LogPoller {
    config: PollConfig,
    cursor: String,
    started: bool,
    phase: Phase,
}

impl View for LogPoller {
    type V = PollState;

    closed spec fn view(&self) -> PollState {
        PollState {
            config: self.config,
            cursor: self.cursor@,
            started: self.started,
            phase: self.phase,
        }
    }
}

/// Relies on chrono: `Utc::now()`, moved back by `secs` seconds with
/// `TimeDelta::from_std` and `DateTime::checked_sub_signed`, and written by
/// `DateTime::to_rfc3339`. `None` where chrono's range is left. The result
/// depends on the clock, so nothing is stated of it.
#[verifier::external_body]
fn rfc3339_seconds_ago(secs: u64) -> (r: Option<String>) {
    let delta = chrono::TimeDelta::from_std(std::time::Duration::from_secs(secs)).ok()?;
    chrono::Utc::now().checked_sub_signed(delta).map(|t| t.to_rfc3339())
}

impl LogPoller {
    /// A poller whose first fetch asks for the entries after `cursor`.
    pub fn new(config: PollConfig, cursor: String) -> (p: LogPoller)
        ensures
            p@ == initial_state(config, cursor@),
    {
        LogPoller { config, cursor, started: false, phase: Phase::Fetching }
    }

    /// A poller whose first fetch reaches `config.since_secs` seconds back
    /// from now. `None` where that point cannot be represented.
    pub fn start(config: PollConfig) -> (r: Option<LogPoller>)
        ensures
            r matches Some(p) ==> p@ == initial_state(config, p@.cursor),
    {
        match rfc3339_seconds_ago(config.since_secs) {
            Some(cursor) => Some(LogPoller::new(config, cursor)),
            None => None,
        }
    }

    pub fn phase(&self) -> (r: Phase)
        ensures
            r == self@.phase,
    {
        self.phase
    }

    /// The cursor: the time after which the next fetch asks for entries.
    pub fn cursor(&self) -> (r: &String)
        ensures
            r@ == self@.cursor,
    {
        &self.cursor
    }

    /// What to do next.
    pub fn next_action(&self) -> (a: PollAction)
        ensures
            a@ == step_of(self@),
    {
        match self.phase {
            Phase::Fetching => PollAction::Fetch {
                max_lines: if self.started {
                    None
                } else {
                    self.config.max_lines
                },
                since: self.cursor.clone(),
            },
            Phase::Sleeping => PollAction::Sleep { secs: self.config.interval_secs },
            Phase::Finished => PollAction::Stop,
        }
    }

    /// Takes in the entries that a fetch returned, newest first, and gives
    /// back the texts to print, oldest first.
    pub fn fetched(&mut self, entries: &Vec<LogEntry>) -> (r: Result<Vec<String>, IncompleteLog>)
        requires
            old(self)@.phase == Phase::Fetching,
        ensures
            final(self)@ == after_fetch(old(self)@, entries@),
            r is Ok <==> entries_complete(entries@),
            r matches Ok(texts) ==> texts@.map_values(|s: String| s@) == printed_lines(
                entries@,
            ).map_values(|l: LogLine| line_text(l)),
            entries@.len() == 0 ==> (r matches Ok(texts) && texts@.len() == 0),
    {
        if entries.len() == 0 {
            self.started = true;
            self.phase = if self.config.follow {
                Phase::Sleeping
            } else {
                Phase::Finished
            };
            return Ok(Vec::new());
        }
        match collect_new_lines(entries) {
            Ok((texts, last)) => {
                self.cursor = last;
                self.started = true;
                self.phase = if self.config.follow {
                    Phase::Sleeping
                } else {
                    Phase::Finished
                };
                Ok(texts)
            },
            Err(e) => {
                self.phase = Phase::Finished;
                Err(e)
            },
        }
    }

    /// Records that the sleep between two fetches is over.
    pub fn slept(&mut self)
        requires
            old(self)@.phase == Phase::Sleeping,
        ensures
            final(self)@ == after_sleep(old(self)@),
    {
        self.phase = Phase::Fetching;
    }
}

/// A fetch that returns no entries leaves the cursor where it was.
pub proof fn lemma_empty_fetch_keeps_cursor(s: PollState)
    ensures
        after_fetch(s, Seq::empty()).cursor == s.cursor,
        printed_lines(Seq::<LogEntry>::empty()).len() == 0,
{
}

/// Without `follow`, a run fetches exactly once, whatever the fetch returns,
/// and then stops.
pub proof fn lemma_no_follow_fetches_once(
    config: PollConfig,
    cursor: Seq<char>,
    batches: Seq<Seq<LogEntry>>,
)
    requires
        !config.follow,
    ensures
        trace(initial_state(config, cursor), batches) == if batches.len() == 0 {
            seq![PollStep::Fetch { max_lines: config.max_lines, since: cursor }]
        } else {
            seq![PollStep::Fetch { max_lines: config.max_lines, since: cursor }, PollStep::Stop]
        },
        trace(initial_state(config, cursor), batches).filter(|st: PollStep| is_fetch(st)).len()
            == 1,
{
    let s = initial_state(config, cursor);
    let t = trace(s, batches);
    let f = PollStep::Fetch { max_lines: config.max_lines, since: cursor };
    if batches.len() > 0 {
        let s1 = after_fetch(s, batches[0]);
        assert(trace(s1, batches.drop_first()) == seq![PollStep::Stop]);
        assert(t =~= seq![f, PollStep::Stop]);
        reveal_with_fuel(Seq::filter, 3);
        assert(t.drop_last() =~= seq![f]);
        assert(seq![f].drop_last() =~= Seq::<PollStep>::empty());
    } else {
        assert(t =~= seq![f]);
        reveal_with_fuel(Seq::filter, 2);
        assert(seq![f].drop_last() =~= Seq::<PollStep>::empty());
    }
}

proof fn lemma_follow_trace(s: PollState, batches: Seq<Seq<LogEntry>>)
    requires
        s.config.follow,
        s.phase == Phase::Fetching,
        forall|i: int| 0 <= i < batches.len() ==> entries_complete(#[trigger] batches[i]),
    ensures
        trace(s, batches).len() == 2 * batches.len() + 1,
        trace(s, batches)[0] == step_of(s),
        forall|k: int|
            0 < k < trace(s, batches).len() ==> (#[trigger] trace(s, batches)[k] == if k % 2 == 1 {
                PollStep::Sleep { secs: s.config.interval_secs }
            } else {
                PollStep::Fetch { max_lines: None, since: trace(s, batches)[k]->Fetch_since }
            }),
    decreases batches.len(),
{
    let t = trace(s, batches);
    if batches.len() > 0 {
        let s1 = after_fetch(s, batches[0]);
        let s2 = after_sleep(s1);
        let rest = batches.drop_first();
        assert(forall|i: int| 0 <= i < rest.len() ==> rest[i] == batches[i + 1]);
        lemma_follow_trace(s2, rest);
        let t2 = trace(s2, rest);
        assert(trace(s1, rest) == seq![step_of(s1)] + t2);
        assert(t == seq![step_of(s)] + (seq![step_of(s1)] + t2));
        assert forall|k: int| 0 < k < t.len() implies #[trigger] t[k] == if k % 2 == 1 {
            PollStep::Sleep { secs: s.config.interval_secs }
        } else {
            PollStep::Fetch { max_lines: None, since: t[k]->Fetch_since }
        } by {
            if k >= 2 {
                assert(t[k] == t2[k - 2]);
                if k == 2 {
                    assert(s2.started);
                }
            }
        }
    }
}

/// With `follow`, a run fetches once at once, then sleeps the interval
/// before each further fetch, which asks for every line; it never stops
/// while the fetches succeed: each of `batches` is answered by a sleep and
/// a new fetch.
pub proof fn lemma_follow_fetches_after_each_sleep(
    config: PollConfig,
    cursor: Seq<char>,
    batches: Seq<Seq<LogEntry>>,
)
    requires
        config.follow,
        forall|i: int| 0 <= i < batches.len() ==> entries_complete(#[trigger] batches[i]),
    ensures
        trace(initial_state(config, cursor), batches).len() == 2 * batches.len() + 1,
        trace(initial_state(config, cursor), batches)[0] == (PollStep::Fetch {
            max_lines: config.max_lines,
            since: cursor,
        }),
        forall|k: int|
            0 < k < trace(initial_state(config, cursor), batches).len() ==> (#[trigger] trace(
                initial_state(config, cursor),
                batches,
            )[k] == if k % 2 == 1 {
                PollStep::Sleep { secs: config.interval_secs }
            } else {
                PollStep::Fetch {
                    max_lines: None,
                    since: trace(initial_state(config, cursor), batches)[k]->Fetch_since,
                }
            }),
{
    lemma_follow_trace(initial_state(config, cursor), batches);
}

} // verus!
