//! The command line of the interactive prompt: one line of text in, one
//! `Command` out.

use crate::text::{
    as_u32, as_u64, chars_of, cut, is_space, parse_u32, parse_u64, parse_u64_in, same_text, starts_with,
    trim, trim_span, word_spans, words,
};
use vstd::prelude::*;
use vstd::string::*;

verus! {

/// What the user asked for.
#[derive(Debug, PartialEq)]
pub enum Command {
    ListProcesses { all: bool, user: Option<String>, sort_by: Option<String> },
    KillProcess { pid: u32, signal: Option<String> },
    ProcessInfo { pid: u32, detailed: bool },
    SystemStats { refresh_interval: Option<u64> },
    SearchProcess { name: String, exact: bool },
    Monitor { interval: u64 },
    Help,
    Exit,
    Unknown(String),
}

/// The mathematical value of a `Command`: its strings as character sequences.
pub enum CommandView {
    ListProcesses { all: bool, user: Option<Seq<char>>, sort_by: Option<Seq<char>> },
    KillProcess { pid: u32, signal: Option<Seq<char>> },
    ProcessInfo { pid: u32, detailed: bool },
    SystemStats { refresh_interval: Option<u64> },
    SearchProcess { name: Seq<char>, exact: bool },
    Monitor { interval: u64 },
    Help,
    Exit,
    Unknown(Seq<char>),
}

/// The characters of an optional string.
pub open spec fn opt_text(o: Option<String>) -> Option<Seq<char>> {
    match o {
        Some(s) => Some(s@),
        None => None,
    }
}

impl View for Command {
    type V = CommandView;

    open spec fn view(&self) -> CommandView {
        match *self {
            Command::ListProcesses { all, user, sort_by } => CommandView::ListProcesses {
                all,
                user: opt_text(user),
                sort_by: opt_text(sort_by),
            },
            Command::KillProcess { pid, signal } => CommandView::KillProcess {
                pid,
                signal: opt_text(signal),
            },
            Command::ProcessInfo { pid, detailed } => CommandView::ProcessInfo { pid, detailed },
            Command::SystemStats { refresh_interval } => CommandView::SystemStats {
                refresh_interval,
            },
            Command::SearchProcess { name, exact } => CommandView::SearchProcess {
                name: name@,
                exact,
            },
            Command::Monitor { interval } => CommandView::Monitor { interval },
            Command::Help => CommandView::Help,
            Command::Exit => CommandView::Exit,
            Command::Unknown(s) => CommandView::Unknown(s@),
        }
    }
}

/// A parsed line: the command, and the text it was read from.
#[derive(Debug)]
pub struct ParseResult {
    pub command: Command,
    pub raw_input: String,
}

/// The mathematical value of a `ParseResult`.
pub struct ParseResultView {
    pub command: CommandView,
    pub raw_input: Seq<char>,
}

impl View for ParseResult {
    type V = ParseResultView;

    open spec fn view(&self) -> ParseResultView {
        ParseResultView { command: self.command@, raw_input: self.raw_input@ }
    }
}

/// The character sequences of a list of string slices.
pub open spec fn texts(args: Seq<&str>) -> Seq<Seq<char>> {
    Seq::new(args.len(), |i: int| args[i]@)
}

/// The pieces with one space between each two neighbours.
pub open spec fn join(parts: Seq<Seq<char>>) -> Seq<char>
    decreases parts.len(),
{
    if parts.len() == 0 {
        Seq::empty()
    } else if parts.len() == 1 {
        parts[0]
    } else {
        join(parts.drop_last()) + seq![' '] + parts.last()
    }
}

/// Joins the arguments with single spaces.
pub fn join_args(args: &[&str]) -> (r: String)
    ensures
        r@ == join(texts(args@)),
{
    let mut r = String::new();
    let mut i: usize = 0;
    assert(texts(args@).take(0) =~= Seq::<Seq<char>>::empty());
    while i < args.len()
        invariant
            i <= args.len(),
            r@ == join(texts(args@).take(i as int)),
        decreases args.len() - i,
    {
        proof {
            reveal_strlit(" ");
            assert(texts(args@).take(i + 1).drop_last() =~= texts(args@).take(i as int));
        }
        if i > 0 {
            r.append(" ");
        }
        r.append(args[i]);
        assert(" "@ =~= seq![' ']);
        assert(r@ =~= join(texts(args@).take(i + 1)));
        i += 1;
    }
    assert(texts(args@).take(args.len() as int) =~= texts(args@));
    r
}

/// What a listing's flags add up to. `-a`/`--all` sets `all`; `-u`/`--user`
/// and `-s`/`--sort` take the argument that follows as their value and do
/// nothing where none follows; a later value replaces an earlier one; any
/// other argument is passed over.
pub open spec fn list_command(
    args: Seq<Seq<char>>,
    all: bool,
    user: Option<Seq<char>>,
    sort_by: Option<Seq<char>>,
) -> CommandView
    decreases args.len(),
{
    if args.len() == 0 {
        CommandView::ListProcesses { all, user, sort_by }
    } else if args[0] == "-a"@ || args[0] == "--all"@ {
        list_command(args.skip(1), true, user, sort_by)
    } else if args[0] == "-u"@ || args[0] == "--user"@ {
        if args.len() > 1 {
            list_command(args.skip(2), all, Some(args[1]), sort_by)
        } else {
            list_command(args.skip(1), all, user, sort_by)
        }
    } else if args[0] == "-s"@ || args[0] == "--sort"@ {
        if args.len() > 1 {
            list_command(args.skip(2), all, user, Some(args[1]))
        } else {
            list_command(args.skip(1), all, user, sort_by)
        }
    } else {
        list_command(args.skip(1), all, user, sort_by)
    }
}

/// The command that `kill` with these arguments stands for.
pub open spec fn kill_command(args: Seq<Seq<char>>) -> CommandView {
    if args.len() == 0 {
        CommandView::Unknown("kill: missing PID"@)
    } else {
        match as_u32(args[0]) {
            Some(pid) => CommandView::KillProcess {
                pid,
                signal: if args.len() > 1 {
                    Some(args[1])
                } else {
                    None
                },
            },
            None => CommandView::Unknown("kill: invalid PID '"@ + args[0] + "'"@),
        }
    }
}

/// Some argument is `a` or `b`.
pub open spec fn mentions(args: Seq<Seq<char>>, a: Seq<char>, b: Seq<char>) -> bool {
    exists|i: int| 0 <= i < args.len() && (#[trigger] args[i] == a || args[i] == b)
}

/// The command that `info` with these arguments stands for.
pub open spec fn info_command(args: Seq<Seq<char>>) -> CommandView {
    if args.len() == 0 {
        CommandView::Unknown("info: missing PID"@)
    } else {
        match as_u32(args[0]) {
            Some(pid) => CommandView::ProcessInfo {
                pid,
                detailed: mentions(args, "-d"@, "--detailed"@),
            },
            None => CommandView::Unknown("info: invalid PID '"@ + args[0] + "'"@),
        }
    }
}

/// The refresh interval that the argument at `i` sets, if it sets one:
/// `--refresh=N`, or `--refresh` with `N` as the next argument.
pub open spec fn refresh_at(args: Seq<Seq<char>>, i: int) -> Option<u64> {
    if "--refresh="@.is_prefix_of(args[i]) {
        as_u64(args[i].skip("--refresh="@.len() as int))
    } else if args[i] == "--refresh"@ && i + 1 < args.len() {
        as_u64(args[i + 1])
    } else {
        None
    }
}

/// The refresh interval that the first `n` arguments leave: that of the
/// last among them that sets one.
pub open spec fn refresh_interval(args: Seq<Seq<char>>, n: int) -> Option<u64>
    decreases n,
{
    if n <= 0 {
        None
    } else {
        match refresh_at(args, n - 1) {
            Some(v) => Some(v),
            None => refresh_interval(args, n - 1),
        }
    }
}

/// The command that `search` with these arguments stands for.
pub open spec fn search_command(args: Seq<Seq<char>>) -> CommandView {
    if args.len() == 0 {
        CommandView::Unknown("search: missing process name"@)
    } else {
        CommandView::SearchProcess { name: args[0], exact: mentions(args, "-e"@, "--exact"@) }
    }
}

/// The interval of `monitor`: the first argument where it is a number,
/// two seconds otherwise.
pub open spec fn monitor_interval(args: Seq<Seq<char>>) -> u64 {
    if args.len() == 0 {
        2
    } else {
        match as_u64(args[0]) {
            Some(n) => n,
            None => 2,
        }
    }
}

/// What a command line means once its first word has been put in lower
/// case: `verb` is that word, `args` are the words after it and `line` is
/// the whole line without the whitespace around it.
pub open spec fn dispatch_line(
    verb: Seq<char>,
    args: Seq<Seq<char>>,
    line: Seq<char>,
) -> ParseResultView {
    if verb == "ps"@ || verb == "list"@ {
        ParseResultView { command: list_command(args, false, None, None), raw_input: join(args) }
    } else if verb == "kill"@ {
        ParseResultView { command: kill_command(args), raw_input: join(args) }
    } else if verb == "info"@ || verb == "show"@ {
        ParseResultView { command: info_command(args), raw_input: join(args) }
    } else if verb == "stats"@ || verb == "status"@ {
        ParseResultView {
            command: CommandView::SystemStats {
                refresh_interval: refresh_interval(args, args.len() as int),
            },
            raw_input: join(args),
        }
    } else if verb == "search"@ || verb == "find"@ {
        ParseResultView { command: search_command(args), raw_input: join(args) }
    } else if verb == "monitor"@ {
        ParseResultView {
            command: CommandView::Monitor { interval: monitor_interval(args) },
            raw_input: line,
        }
    } else if verb == "help"@ {
        ParseResultView { command: CommandView::Help, raw_input: line }
    } else if verb == "exit"@ || verb == "quit"@ {
        ParseResultView { command: CommandView::Exit, raw_input: line }
    } else {
        ParseResultView { command: CommandView::Unknown(line), raw_input: line }
    }
}

/// The lower-case form that `str::to_lowercase` gives the text `s`.
pub uninterp spec fn lowercase(s: Seq<char>) -> Seq<char>;

/// What a line of input means. A line of whitespace alone asks for help.
/// Otherwise the first word, in lower case, names the command and the
/// other words are its arguments.
pub open spec fn parse_line(input: Seq<char>) -> ParseResultView {
    let line = trim(input);
    if line.len() == 0 {
        ParseResultView { command: CommandView::Help, raw_input: line }
    } else {
        dispatch_line(lowercase(words(line)[0]), words(line).skip(1), line)
    }
}

/// Calls `str::to_lowercase`, the Unicode lower-casing of the standard
/// library. The contract gives the result its name and claims nothing
/// else of it.
#[verifier::external_body]
fn lowercased(s: &str) -> (r: String)
    ensures
        r@ == lowercase(s@),
{
    s.to_lowercase()
}

/// Whether some argument is `a` or `b`.
pub fn any_is(args: &[&str], a: &str, b: &str) -> (r: bool)
    ensures
        r == mentions(texts(args@), a@, b@),
{
    let mut i: usize = 0;
    while i < args.len()
        invariant
            i <= args.len(),
            forall|k: int| 0 <= k < i ==> !(texts(args@)[k] == a@ || texts(args@)[k] == b@),
        decreases args.len() - i,
    {
        if same_text(args[i], a) || same_text(args[i], b) {
            assert(texts(args@)[i as int] == a@ || texts(args@)[i as int] == b@);
            return true;
        }
        i += 1;
    }
    false
}

/// The parser of the prompt's command lines. It holds no state.
pub struct CommandParser;

impl CommandParser {
    pub fn new() -> (r: Self) {
        CommandParser
    }

    /// Reads one line of input.
    pub fn parse(&self, input: &str) -> (r: ParseResult)
        ensures
            r@ == parse_line(input@),
    {
        let v = chars_of(input);
        let t = trim_span(&v);
        let line = input.substring_char(t.start, t.end);
        if t.start == t.end {
            return ParseResult { command: Command::Help, raw_input: line.to_owned() };
        }
        let spans = word_spans(&v, t.start, t.end);
        let mut parts: Vec<&str> = Vec::new();
        let mut k: usize = 0;
        while k < spans.len()
            invariant
                k <= spans.len(),
                v@ == input@,
                crate::text::all_within(v@, spans@),
                parts.len() == k,
                forall|j: int| 0 <= j < k ==> (#[trigger] parts@[j])@ == spans@[j].of(v@),
            decreases spans.len() - k,
        {
            let sp = spans[k];
            assert(spans@[k as int].within(v@));
            parts.push(input.substring_char(sp.start, sp.end));
            k += 1;
        }
        proof {
            assert(texts(parts@) =~= cut(v@, spans@));
            let l = trim(input@);
            assert(!is_space(l[0]));
            crate::text::lemma_word_len_bounds(l);
            assert(words(l).len() > 0);
        }
        let verb = lowercased(parts[0]);
        let args = vstd::slice::slice_subrange(parts.as_slice(), 1, parts.len());
        assert(texts(args@) =~= texts(parts@).skip(1));
        self.dispatch(verb.as_str(), args, line)
    }

    /// Decides what a line means from its first word in lower case, the
    /// words after it, and the line without the whitespace around it.
    pub fn dispatch(&self, verb: &str, args: &[&str], line: &str) -> (r: ParseResult)
        ensures
            r@ == dispatch_line(verb@, texts(args@), line@),
    {
        if same_text(verb, "ps") || same_text(verb, "list") {
            self.parse_list_command(args)
        } else if same_text(verb, "kill") {
            self.parse_kill_command(args)
        } else if same_text(verb, "info") || same_text(verb, "show") {
            self.parse_info_command(args)
        } else if same_text(verb, "stats") || same_text(verb, "status") {
            self.parse_stats_command(args)
        } else if same_text(verb, "search") || same_text(verb, "find") {
            self.parse_search_command(args)
        } else if same_text(verb, "monitor") {
            let interval: u64 = if args.len() > 0 {
                assert(texts(args@)[0] == args@[0]@);
                match parse_u64(args[0]) {
                    Some(n) => n,
                    None => 2,
                }
            } else {
                2
            };
            ParseResult { command: Command::Monitor { interval }, raw_input: line.to_owned() }
        } else if same_text(verb, "help") {
            ParseResult { command: Command::Help, raw_input: line.to_owned() }
        } else if same_text(verb, "exit") || same_text(verb, "quit") {
            ParseResult { command: Command::Exit, raw_input: line.to_owned() }
        } else {
            ParseResult { command: Command::Unknown(line.to_owned()), raw_input: line.to_owned() }
        }
    }

    /// Reads the arguments of `ps` / `list`.
    pub fn parse_list_command(&self, args: &[&str]) -> (r: ParseResult)
        ensures
            r@ == (ParseResultView {
                command: list_command(texts(args@), false, None, None),
                raw_input: join(texts(args@)),
            }),
    {
        let mut all = false;
        let mut user: Option<String> = None;
        let mut sort_by: Option<String> = None;
        let mut i: usize = 0;
        assert(texts(args@).skip(0) =~= texts(args@));
        while i < args.len()
            invariant
                i <= args.len(),
                list_command(texts(args@).skip(i as int), all, opt_text(user), opt_text(sort_by))
                    == list_command(texts(args@), false, None, None),
            decreases args.len() - i,
        {
            let ghost rest = texts(args@).skip(i as int);
            assert(rest[0] == args@[i as int]@);
            assert(rest.skip(1) =~= texts(args@).skip(i + 1));
            if same_text(args[i], "-a") || same_text(args[i], "--all") {
                all = true;
            } else if same_text(args[i], "-u") || same_text(args[i], "--user") {
                if i + 1 < args.len() {
                    assert(rest[1] == args@[i + 1]@);
                    assert(rest.skip(2) =~= texts(args@).skip(i + 2));
                    user = Some(args[i + 1].to_owned());
                    i += 1;
                }
            } else if same_text(args[i], "-s") || same_text(args[i], "--sort") {
                if i + 1 < args.len() {
                    assert(rest[1] == args@[i + 1]@);
                    assert(rest.skip(2) =~= texts(args@).skip(i + 2));
                    sort_by = Some(args[i + 1].to_owned());
                    i += 1;
                }
            }
            i += 1;
        }
        ParseResult {
            command: Command::ListProcesses { all, user, sort_by },
            raw_input: join_args(args),
        }
    }

    /// Reads the arguments of `kill`.
    pub fn parse_kill_command(&self, args: &[&str]) -> (r: ParseResult)
        ensures
            r@ == (ParseResultView {
                command: kill_command(texts(args@)),
                raw_input: join(texts(args@)),
            }),
    {
        if args.len() == 0 {
            return ParseResult {
                command: Command::Unknown("kill: missing PID".to_owned()),
                raw_input: join_args(args),
            };
        }
        assert(texts(args@)[0] == args@[0]@);
        let pid = match parse_u32(args[0]) {
            Some(pid) => pid,
            None => {
                let mut msg = "kill: invalid PID '".to_owned();
                msg.append(args[0]);
                msg.append("'");
                return ParseResult { command: Command::Unknown(msg), raw_input: join_args(args) };
            },
        };
        let signal = if args.len() > 1 {
            assert(texts(args@)[1] == args@[1]@);
            Some(args[1].to_owned())
        } else {
            None
        };
        ParseResult { command: Command::KillProcess { pid, signal }, raw_input: join_args(args) }
    }

    /// Reads the arguments of `info` / `show`.
    pub fn parse_info_command(&self, args: &[&str]) -> (r: ParseResult)
        ensures
            r@ == (ParseResultView {
                command: info_command(texts(args@)),
                raw_input: join(texts(args@)),
            }),
    {
        if args.len() == 0 {
            return ParseResult {
                command: Command::Unknown("info: missing PID".to_owned()),
                raw_input: join_args(args),
            };
        }
        assert(texts(args@)[0] == args@[0]@);
        let pid = match parse_u32(args[0]) {
            Some(pid) => pid,
            None => {
                let mut msg = "info: invalid PID '".to_owned();
                msg.append(args[0]);
                msg.append("'");
                return ParseResult { command: Command::Unknown(msg), raw_input: join_args(args) };
            },
        };
        let detailed = any_is(args, "-d", "--detailed");
        ParseResult { command: Command::ProcessInfo { pid, detailed }, raw_input: join_args(args) }
    }

    /// Reads the arguments of `stats` / `status`.
    pub fn parse_stats_command(&self, args: &[&str]) -> (r: ParseResult)
        ensures
            r@ == (ParseResultView {
                command: CommandView::SystemStats {
                    refresh_interval: refresh_interval(texts(args@), args@.len() as int),
                },
                raw_input: join(texts(args@)),
            }),
    {
        let prefix = chars_of("--refresh=");
        let mut refresh: Option<u64> = None;
        let mut i: usize = 0;
        while i < args.len()
            invariant
                i <= args.len(),
                prefix@ == "--refresh="@,
                refresh == refresh_interval(texts(args@), i as int),
            decreases args.len() - i,
        {
            assert(texts(args@)[i as int] == args@[i as int]@);
            let a = chars_of(args[i]);
            assert(a@.subrange(0, a.len() as int) =~= a@);
            let found: Option<u64> = if starts_with(&a, 0, a.len(), &prefix) {
                assert(a@.subrange(prefix.len() as int, a.len() as int) =~= a@.skip(
                    prefix.len() as int,
                ));
                parse_u64_in(&a, prefix.len(), a.len())
            } else if same_text(args[i], "--refresh") && i + 1 < args.len() {
                assert(texts(args@)[i + 1] == args@[i + 1]@);
                parse_u64(args[i + 1])
            } else {
                None
            };
            assert(found == refresh_at(texts(args@), i as int));
            if let Some(n) = found {
                refresh = Some(n);
            }
            i += 1;
        }
        ParseResult {
            command: Command::SystemStats { refresh_interval: refresh },
            raw_input: join_args(args),
        }
    }

    /// Reads the arguments of `search` / `find`.
    pub fn parse_search_command(&self, args: &[&str]) -> (r: ParseResult)
        ensures
            r@ == (ParseResultView {
                command: search_command(texts(args@)),
                raw_input: join(texts(args@)),
            }),
    {
        if args.len() == 0 {
            return ParseResult {
                command: Command::Unknown("search: missing process name".to_owned()),
                raw_input: join_args(args),
            };
        }
        assert(texts(args@)[0] == args@[0]@);
        let name = args[0].to_owned();
        let exact = any_is(args, "-e", "--exact");
        ParseResult { command: Command::SearchProcess { name, exact }, raw_input: join_args(args) }
    }
}

/// The signals that `kill` can send.
#[derive(Clone, Copy, Debug, PartialEq, Eq, Structural)]
pub enum KillSignal {
    Terminate,
    Kill,
}

/// The signal that a name asks for: `SIGKILL` kills, and anything else,
/// like no name at all, terminates.
pub open spec fn signal_named(name: Option<Seq<char>>) -> KillSignal {
    if name == Some("SIGKILL"@) {
        KillSignal::Kill
    } else {
        KillSignal::Terminate
    }
}

/// Picks the signal to send for the name given to `kill`.
pub fn signal_for(name: &Option<String>) -> (r: KillSignal)
    ensures
        r == signal_named(opt_text(*name)),
{
    match name {
        Some(s) => if same_text(s.as_str(), "SIGKILL") {
            KillSignal::Kill
        } else {
            KillSignal::Terminate
        },
        None => KillSignal::Terminate,
    }
}

} // verus!
