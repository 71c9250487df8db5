//! Agent tools: the result record every tool returns, and the tool handles
//! with their workspace locations.
use vstd::prelude::*;
use crate::paths::{join_path, joined};
use crate::lines::{join_from, join_lines, lines_of, split_lines, views};
use crate::text::{
    chars_of, lower_of, to_lower, decimal, has_suffix, push_decimal, push_text, string_of, strip_prefix_all, trim_prefix_all,
    trim_white, trimmed,
};

verus! {

/// The outcome of one tool call.
pub struct ToolResult {
    pub success: bool,
    pub output: String,
    pub error: Option<String>,
}

/// A failed tool call carrying the message `msg`.
pub fn err(msg: &str) -> (r: ToolResult)
    ensures
        !r.success,
        r.output@ == Seq::<char>::empty(),
        r.error matches Some(e) && e@ == msg@,
{
    ToolResult {
        success: false,
        output: String::new(),
        error: Some(crate::text::string_of(&crate::text::chars_of(msg))),
    }
}

/// Lists the .rhai strategy scripts available for backtesting.
pub struct BacktestListScriptsTool {
    workspace_dir: String,
}

impl View for BacktestListScriptsTool {
    type V = Seq<char>;

    /// The workspace directory.
    closed spec fn view(&self) -> Seq<char> {
        self.workspace_dir@
    }
}

impl BacktestListScriptsTool {
    pub fn new(workspace_dir: String) -> (r: Self)
        ensures
            r@ == workspace_dir@,
    {
        BacktestListScriptsTool { workspace_dir }
    }

    /// The workspace directory the tool lists scripts from.
    pub fn workspace_dir(&self) -> (r: &String)
        ensures
            r@ == self@,
    {
        &self.workspace_dir
    }
}

/// Runs a backtest on a .rhai strategy script.
pub struct BacktestRunTool {
    workspace_dir: String,
}

impl View for BacktestRunTool {
    type V = Seq<char>;

    /// The workspace directory.
    closed spec fn view(&self) -> Seq<char> {
        self.workspace_dir@
    }
}

impl BacktestRunTool {
    pub fn new(workspace_dir: String) -> (r: Self)
        ensures
            r@ == workspace_dir@,
    {
        BacktestRunTool { workspace_dir }
    }

    /// The workspace directory the tool runs scripts from.
    pub fn workspace_dir(&self) -> (r: &String)
        ensures
            r@ == self@,
    {
        &self.workspace_dir
    }
}

/// Lists the live and paper trading strategies with their status.
pub struct LiveStrategiesListTool {
    workspace_dir: String,
}

impl View for LiveStrategiesListTool {
    type V = Seq<char>;

    /// The workspace directory.
    closed spec fn view(&self) -> Seq<char> {
        self.workspace_dir@
    }
}

impl LiveStrategiesListTool {
    pub fn new(workspace_dir: String) -> (r: Self)
        ensures
            r@ == workspace_dir@,
    {
        LiveStrategiesListTool { workspace_dir }
    }

    /// The workspace directory holding `live_strategies.json`.
    pub fn workspace_dir(&self) -> (r: &String)
        ensures
            r@ == self@,
    {
        &self.workspace_dir
    }
}

/// Fetches live market indicators from the TradingView screener.
pub struct MarketScanTool;

/// Rolling win-rate tracker per (script × symbol).
pub struct AssetSelectorTool {
    pub workspace_dir: String,
}

impl AssetSelectorTool {
    /// `<workspace>/data/asset_selector_stats.json`.
    pub fn stats_path(&self) -> (r: String)
        ensures
            r@ == joined(joined(self.workspace_dir@, "data"@), "asset_selector_stats.json"@),
    {
        let data = join_path(self.workspace_dir.as_str(), "data");
        join_path(data.as_str(), "asset_selector_stats.json")
    }
}

/// Binance API credentials.
pub struct BinanceCredentials {
    pub api_key: String,
    pub api_secret: String,
}

/// Starts 1-Hz tick recorders for Polymarket binary markets.
pub struct TickRecorder;

/// Settings of one tick recorder.
pub struct TickRecorderConfig {
    /// Polymarket condition_id (hex token id) or market slug for display.
    pub condition_id: String,
    /// Short slug used in the output file path (e.g. "btc_5m").
    pub slug: String,
    /// Binance symbol to track (e.g. "BTCUSDT").
    pub binance_symbol: String,
    /// Optional Chainlink REST endpoint URL.
    pub chainlink_url: Option<String>,
    /// Optional Chainlink API key (Bearer).
    pub chainlink_api_key: Option<String>,
    /// Polymarket CLOB base URL.
    pub clob_base_url: String,
    /// Directory to write JSONL files.
    pub output_dir: String,
    /// How many calendar days of JSONL files to keep before pruning (0 keeps all).
    pub retain_days: u64,
    /// Polymarket gamma API base URL for price queries.
    pub gamma_base_url: String,
}

impl TickRecorderConfig {
    /// A recorder for `slug` writing under `<workspace>/data/ticks/<slug>`, with
    /// the public Polymarket endpoints, no Chainlink feed and 7 days retention.
    pub fn new(slug: &str, condition_id: &str, binance_symbol: &str, workspace_dir: &str) -> (r:
        Self)
        ensures
            r.slug@ == slug@,
            r.condition_id@ == condition_id@,
            r.binance_symbol@ == binance_symbol@,
            r.chainlink_url is None,
            r.chainlink_api_key is None,
            r.clob_base_url@ == "https://clob.polymarket.com"@,
            r.gamma_base_url@ == "https://gamma-api.polymarket.com"@,
            r.output_dir@ == joined(joined(joined(workspace_dir@, "data"@), "ticks"@), slug@),
            r.retain_days == 7,
    {
        let data = join_path(workspace_dir, "data");
        let ticks = join_path(data.as_str(), "ticks");
        let out = join_path(ticks.as_str(), slug);
        TickRecorderConfig {
            condition_id: crate::text::string_of(&crate::text::chars_of(condition_id)),
            slug: crate::text::string_of(&crate::text::chars_of(slug)),
            binance_symbol: crate::text::string_of(&crate::text::chars_of(binance_symbol)),
            chainlink_url: None,
            chainlink_api_key: None,
            clob_base_url: crate::text::string_of(
                &crate::text::chars_of("https://clob.polymarket.com"),
            ),
            output_dir: out,
            retain_days: 7,
            gamma_base_url: crate::text::string_of(
                &crate::text::chars_of("https://gamma-api.polymarket.com"),
            ),
        }
    }
}


/// A directory entry named `name` is a strategy script: its extension (the
/// part after the last `.`, when that `.` does not open the name) is `rhai`.
pub open spec fn is_script_name(name: Seq<char>) -> bool {
    has_suffix(name, ".rhai"@) && name.len() > 5
}

/// Whether the file name `name` is that of a strategy script.
pub fn is_script_file(name: &str) -> (r: bool)
    ensures
        r == is_script_name(name@),
{
    let v = chars_of(name);
    let ext = chars_of(".rhai");
    crate::text::ends_with(&v, &ext) && v.len() > 5
}

/// The description of a script: its first line without leading `//` marks
/// and surrounding white space, or `(no description)` when that is empty or
/// the script has no line.
pub open spec fn description_of(content: Seq<char>) -> Seq<char> {
    let ls = lines_of(content);
    if ls.len() == 0 {
        "(no description)"@
    } else {
        let d = trimmed(strip_prefix_all(ls[0], "//"@));
        if d.len() == 0 {
            "(no description)"@
        } else {
            d
        }
    }
}

/// The description of a script from its content.
pub fn script_description(content: &str) -> (r: String)
    ensures
        r@ == description_of(content@),
{
    let ls = split_lines(&chars_of(content));
    if ls.len() == 0 {
        return string_of(&chars_of("(no description)"));
    }
    proof {
        assert(views(ls@)[0] == ls@[0]@);
        reveal_strlit("//");
    }
    let slash = chars_of("//");
    let d = trim_white(&trim_prefix_all(&ls[0], &slash));
    if d.len() == 0 {
        string_of(&chars_of("(no description)"))
    } else {
        string_of(&d)
    }
}

/// One line of the script listing.
pub open spec fn script_entry_of(name: Seq<char>, description: Seq<char>, path: Seq<char>) -> Seq<char> {
    "- "@ + name + " — "@ + description + " (path: "@ + path + ")"@
}

/// The listing line of the script `name` at `path`.
pub fn script_entry(name: &str, description: &str, path: &str) -> (r: String)
    ensures
        r@ == script_entry_of(name@, description@, path@),
{
    let mut s = String::new();
    push_text(&mut s, "- ");
    push_text(&mut s, name);
    push_text(&mut s, " — ");
    push_text(&mut s, description);
    push_text(&mut s, " (path: ");
    push_text(&mut s, path);
    push_text(&mut s, ")");
    s
}

/// What listing the scripts directory `dir` answers, given the listing
/// lines of the scripts found there.
pub open spec fn listing_of(dir: Seq<char>, entries: Seq<Seq<char>>) -> Seq<char> {
    if entries.len() == 0 {
        "No .rhai scripts found in "@ + dir + ". Use the file_write tool to create one first."@
    } else {
        "Found "@ + decimal(entries.len()) + " script(s) in "@ + dir + ":\n"@ + join_lines(entries)
    }
}

/// The answer of the script listing: always a success.
pub fn list_scripts_result(dir: &str, entries: &Vec<Vec<char>>) -> (r: ToolResult)
    ensures
        r.success,
        r.error is None,
        r.output@ == listing_of(dir@, views(entries@)),
{
    let mut s = String::new();
    if entries.len() == 0 {
        push_text(&mut s, "No .rhai scripts found in ");
        push_text(&mut s, dir);
        push_text(&mut s, ". Use the file_write tool to create one first.");
    } else {
        push_text(&mut s, "Found ");
        push_decimal(&mut s, entries.len() as u64);
        push_text(&mut s, " script(s) in ");
        push_text(&mut s, dir);
        push_text(&mut s, ":\n");
        let body = join_from(entries, 0);
        proof {
            assert(views(entries@).skip(0) =~= views(entries@));
        }
        push_text(&mut s, string_of(&body).as_str());
    }
    ToolResult { success: true, output: s, error: None }
}


/// The error of a backtest whose script is not at `path`.
pub fn script_not_found(path: &str) -> (r: ToolResult)
    ensures
        !r.success,
        r.output@ == Seq::<char>::empty(),
        r.error matches Some(e) && e@ == "Script not found: "@ + path@
            + ". Use backtest_list_scripts to see available scripts."@,
{
    let mut s = String::new();
    push_text(&mut s, "Script not found: ");
    push_text(&mut s, path);
    push_text(&mut s, ". Use backtest_list_scripts to see available scripts.");
    ToolResult { success: false, output: String::new(), error: Some(s) }
}

/// What the live strategy listing reads of a saved runner: its mode and its
/// status word (`unknown` when the file has none).
pub struct RunnerBrief {
    pub mode: String,
    pub status: String,
}

/// The brief of a saved runner whose record gives the mode `mode` and the
/// status `status`, each `unknown` where the record has none.
pub fn brief_of(mode: Option<&str>, status: Option<&str>) -> (r: RunnerBrief)
    ensures
        r.mode@ == (match mode {
            Some(m) => m@,
            None => "unknown"@,
        }),
        r.status@ == (match status {
            Some(st) => st@,
            None => "unknown"@,
        }),
{
    let m = match mode {
        Some(m) => m.to_owned(),
        None => {
            proof {
                reveal_strlit("unknown");
            }
            "unknown".to_owned()
        },
    };
    let st = match status {
        Some(st) => st.to_owned(),
        None => {
            proof {
                reveal_strlit("unknown");
            }
            "unknown".to_owned()
        },
    };
    RunnerBrief { mode: m, status: st }
}

/// How many runners of `rs` have the mode `mode`.
pub open spec fn count_mode(rs: Seq<RunnerBrief>, mode: Seq<char>) -> nat
    decreases rs.len(),
{
    if rs.len() == 0 {
        0
    } else {
        count_mode(rs.drop_last(), mode) + if rs.last().mode@ == mode { 1nat } else { 0nat }
    }
}

/// How many runners of `rs` have the status `status`.
pub open spec fn count_status(rs: Seq<RunnerBrief>, status: Seq<char>) -> nat
    decreases rs.len(),
{
    if rs.len() == 0 {
        0
    } else {
        count_status(rs.drop_last(), status) + if rs.last().status@ == status { 1nat } else { 0nat }
    }
}

/// The runner passes the filters (each compared lower-cased; no filter
/// passes all).
pub open spec fn passes(r: RunnerBrief, mode_filter: Option<Seq<char>>, status_filter: Option<Seq<char>>) -> bool {
    &&& (mode_filter matches Some(m) ==> r.mode@ == lower_of(m))
    &&& (status_filter matches Some(st) ==> r.status@ == lower_of(st))
}

/// The counts of the live strategy listing and the positions of the runners
/// it shows.
pub struct LiveTally {
    pub total: usize,
    pub live: usize,
    pub paper: usize,
    pub running: usize,
    pub selected: Vec<usize>,
}

/// Counts the runners by mode and status and picks, in order, those that
/// pass the filters.
pub fn tally_runners(runners: &Vec<RunnerBrief>, mode_filter: Option<&str>, status_filter: Option<&str>) -> (r: LiveTally)
    ensures
        r.total == runners@.len(),
        r.live == count_mode(runners@, "live"@),
        r.paper == count_mode(runners@, "paper"@),
        r.running == count_status(runners@, "running"@),
        forall|j: int| 0 <= j < r.selected@.len() ==> (#[trigger] r.selected@[j]) < runners@.len()
            && passes(runners@[r.selected@[j] as int], opt_view(mode_filter), opt_view(status_filter)),
        forall|a: int, b: int| 0 <= a < b < r.selected@.len() ==> r.selected@[a] < r.selected@[b],
        forall|i: int| 0 <= i < runners@.len() && passes(runners@[i], opt_view(mode_filter), opt_view(status_filter))
            ==> r.selected@.contains(i as usize),
{
    let live = "live".to_owned();
    let paper = "paper".to_owned();
    let running = "running".to_owned();
    proof {
        reveal_strlit("live");
        reveal_strlit("paper");
        assert("live"@[0] != "paper"@[0]);
    }
    let mf = match mode_filter {
        Some(m) => Some(to_lower(m)),
        None => None,
    };
    let sf = match status_filter {
        Some(st) => Some(to_lower(st)),
        None => None,
    };
    let mut n_live: usize = 0;
    let mut n_paper: usize = 0;
    let mut n_running: usize = 0;
    let mut selected: Vec<usize> = Vec::new();
    let mut i: usize = 0;
    while i < runners.len()
        invariant
            i <= runners@.len(),
            live@ == "live"@,
            paper@ == "paper"@,
            "live"@ != "paper"@,
            running@ == "running"@,
            mf matches Some(m) ==> mode_filter matches Some(x) && m@ == lower_of(x@),
            mf is None ==> mode_filter is None,
            sf matches Some(m) ==> status_filter matches Some(x) && m@ == lower_of(x@),
            sf is None ==> status_filter is None,
            n_live == count_mode(runners@.take(i as int), "live"@),
            n_paper == count_mode(runners@.take(i as int), "paper"@),
            n_running == count_status(runners@.take(i as int), "running"@),
            n_live <= i,
            n_paper <= i,
            n_running <= i,
            forall|j: int| 0 <= j < selected@.len() ==> (#[trigger] selected@[j]) < i
                && passes(runners@[selected@[j] as int], opt_view(mode_filter), opt_view(status_filter)),
            forall|a: int, b: int| 0 <= a < b < selected@.len() ==> selected@[a] < selected@[b],
            forall|k: int| 0 <= k < i && passes(runners@[k], opt_view(mode_filter), opt_view(status_filter))
                ==> selected@.contains(k as usize),
        decreases runners@.len() - i,
    {
        proof {
            assert(runners@.take(i as int + 1).drop_last() =~= runners@.take(i as int));
            assert(runners@.take(i as int + 1).last() == runners@[i as int]);
        }
        let r = &runners[i];
        if r.mode == live {
            n_live = n_live + 1;
        } else if r.mode == paper {
            n_paper = n_paper + 1;
        }
        if r.status == running {
            n_running = n_running + 1;
        }
        let mode_ok = match &mf {
            Some(m) => r.mode == *m,
            None => true,
        };
        let status_ok = match &sf {
            Some(st) => r.status == *st,
            None => true,
        };
        let ghost before = selected@;
        if mode_ok && status_ok {
            selected.push(i);
            proof {
                assert(selected@[before.len() as int] == i);
            }
        }
        proof {
            assert forall|k: int| 0 <= k < i + 1 && passes(runners@[k], opt_view(mode_filter), opt_view(status_filter))
                implies selected@.contains(k as usize) by {
                if k < i {
                    assert(before.contains(k as usize));
                    let j = choose|j: int| 0 <= j < before.len() && before[j] == k as usize;
                    assert(selected@[j] == k as usize);
                } else {
                    assert(selected@[before.len() as int] == i);
                }
            }
        }
        i = i + 1;
    }
    proof {
        assert(runners@.take(runners@.len() as int) =~= runners@);
    }
    LiveTally { total: runners.len(), live: n_live, paper: n_paper, running: n_running, selected }
}

/// The view of an optional string slice.
pub open spec fn opt_view(o: Option<&str>) -> Option<Seq<char>> {
    match o {
        Some(s) => Some(s@),
        None => None,
    }
}

/// The text of the live strategy listing: the counts, then the runners'
/// summaries one after another, or a note that none is configured or none
/// matches the filters.
pub open spec fn live_listing_of(t: (nat, nat, nat, nat), filtered: bool, entries: Seq<Seq<char>>) -> Seq<char> {
    let header = "=== Live Strategies Summary ===\nTotal: "@ + decimal(t.0) + " | Live (real money): "@ + decimal(t.1)
        + " | Paper/Dry-run: "@ + decimal(t.2) + " | Currently running: "@ + decimal(t.3) + "\n"@;
    let body = if entries.len() == 0 {
        if filtered {
            "No strategies match the given filters."@
        } else {
            "No strategies configured."@
        }
    } else {
        join_lines(entries)
    };
    header + "\n"@ + body
}

/// The listing text for the tally `t` and the summaries of the runners shown.
pub fn live_listing(t: &LiveTally, filtered: bool, entries: &Vec<Vec<char>>) -> (r: String)
    ensures
        r@ == live_listing_of((t.total as nat, t.live as nat, t.paper as nat, t.running as nat), filtered, views(entries@)),
{
    let mut s = String::new();
    push_text(&mut s, "=== Live Strategies Summary ===\nTotal: ");
    push_decimal(&mut s, t.total as u64);
    push_text(&mut s, " | Live (real money): ");
    push_decimal(&mut s, t.live as u64);
    push_text(&mut s, " | Paper/Dry-run: ");
    push_decimal(&mut s, t.paper as u64);
    push_text(&mut s, " | Currently running: ");
    push_decimal(&mut s, t.running as u64);
    push_text(&mut s, "\n");
    push_text(&mut s, "\n");
    if entries.len() == 0 {
        if filtered {
            push_text(&mut s, "No strategies match the given filters.");
        } else {
            push_text(&mut s, "No strategies configured.");
        }
    } else {
        let body = join_from(entries, 0);
        proof {
            assert(views(entries@).skip(0) =~= views(entries@));
        }
        push_text(&mut s, string_of(&body).as_str());
    }
    s
}

} // verus!
