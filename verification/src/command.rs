//! The shell commands that start Codex and the watchdog, and the checks on
//! the watchdog's settings.

use crate::monitor::MonitorConfig;
use crate::text::{
    append, ascii_alphanumeric, chars_of, decimal, join, join_from, push_decimal,
    string_from_chars,
};
use vstd::prelude::*;

verus! {

/// The characters of `s` with each `'` written as `'\''` (close the quoted
/// part, an escaped quote, reopen).
pub open spec fn escape_quotes(s: Seq<char>) -> Seq<char>
    decreases s.len(),
{
    if s.len() == 0 {
        Seq::empty()
    } else {
        escape_quotes(s.drop_last()) + if s.last() == '\'' {
            seq!['\'', '\\', '\'', '\'']
        } else {
            seq![s.last()]
        }
    }
}

/// `s` as one single-quoted POSIX shell word.
pub open spec fn shell_quoted(s: Seq<char>) -> Seq<char> {
    seq!['\''] + escape_quotes(s) + seq!['\'']
}

fn quote_chars(s: &[char]) -> (r: Vec<char>)
    ensures
        r@ == shell_quoted(s@),
{
    let n = s.len();
    let mut r: Vec<char> = Vec::new();
    r.push('\'');
    for i in 0..n
        invariant
            n == s@.len(),
            r@ == seq!['\''] + escape_quotes(s@.take(i as int)),
    {
        assert(s@.take(i + 1).drop_last() =~= s@.take(i as int));
        let ghost before = r@;
        if s[i] == '\'' {
            r.push('\'');
            r.push('\\');
            r.push('\'');
            r.push('\'');
        } else {
            r.push(s[i]);
        }
        assert(r@ =~= seq!['\''] + escape_quotes(s@.take(i + 1)));
    }
    assert(s@.take(n as int) =~= s@);
    r.push('\'');
    r
}

/// Characters that a POSIX shell reads as themselves outside quotes.
pub open spec fn shell_plain(c: char) -> bool {
    ascii_alphanumeric(c) || c == '-' || c == '_' || c == '.' || c == '/' || c == ':' || c == '='
        || c == ',' || c == '@' || c == '+' || c == '%'
}

/// Reading a command line the way a POSIX shell splits it into words,
/// restricted to spaces, single-quoted parts, backslash escapes and plain
/// characters: the finished words, the word being read, whether a word is
/// being read, whether a quoted part is open, whether a backslash waits for
/// its character, and whether a character outside these occurred unquoted.
pub struct ShellRead {
    pub words: Seq<Seq<char>>,
    pub current: Seq<char>,
    pub in_word: bool,
    pub in_quotes: bool,
    pub escaping: bool,
    pub special: bool,
}

pub open spec fn shell_start() -> ShellRead {
    ShellRead {
        words: Seq::empty(),
        current: Seq::empty(),
        in_word: false,
        in_quotes: false,
        escaping: false,
        special: false,
    }
}

pub open spec fn shell_step(st: ShellRead, c: char) -> ShellRead {
    if st.in_quotes {
        if c == '\'' {
            ShellRead { in_quotes: false, ..st }
        } else {
            ShellRead { current: st.current.push(c), ..st }
        }
    } else if st.escaping {
        ShellRead { current: st.current.push(c), escaping: false, ..st }
    } else if c == ' ' {
        if st.in_word {
            ShellRead { words: st.words.push(st.current), current: Seq::empty(), in_word: false, ..st }
        } else {
            st
        }
    } else if c == '\'' {
        ShellRead { in_quotes: true, in_word: true, ..st }
    } else if c == '\\' {
        ShellRead { escaping: true, in_word: true, ..st }
    } else if shell_plain(c) {
        ShellRead { current: st.current.push(c), in_word: true, ..st }
    } else {
        ShellRead { special: true, ..st }
    }
}

pub open spec fn shell_read_from(st: ShellRead, text: Seq<char>) -> ShellRead
    decreases text.len(),
{
    if text.len() == 0 {
        st
    } else {
        shell_step(shell_read_from(st, text.drop_last()), text.last())
    }
}

/// The words a POSIX shell reads from a command line made only of spaces,
/// single-quoted parts, backslash escapes and plain characters; `None` for
/// any other line.
pub open spec fn shell_words(line: Seq<char>) -> Option<Seq<Seq<char>>> {
    let st = shell_read_from(shell_start(), line);
    if st.in_quotes || st.escaping || st.special {
        None
    } else if st.in_word {
        Some(st.words.push(st.current))
    } else {
        Some(st.words)
    }
}

proof fn lemma_read_push(st: ShellRead, p: Seq<char>, c: char)
    ensures
        shell_read_from(st, p.push(c)) == shell_step(shell_read_from(st, p), c),
{
    assert(p.push(c).drop_last() =~= p);
}

proof fn lemma_read_append(st: ShellRead, a: Seq<char>, b: Seq<char>)
    ensures
        shell_read_from(st, a + b) == shell_read_from(shell_read_from(st, a), b),
    decreases b.len(),
{
    if b.len() == 0 {
        assert(a + b =~= a);
    } else {
        lemma_read_append(st, a, b.drop_last());
        assert(a + b =~= (a + b.drop_last()).push(b.last()));
        lemma_read_push(st, a + b.drop_last(), b.last());
        assert(b =~= b.drop_last().push(b.last()));
        lemma_read_push(shell_read_from(st, a), b.drop_last(), b.last());
    }
}

proof fn lemma_read_escaped(st: ShellRead, s: Seq<char>)
    requires
        st.in_quotes,
        st.in_word,
        !st.escaping,
    ensures
        shell_read_from(st, escape_quotes(s)) == (ShellRead { current: st.current + s, ..st }),
    decreases s.len(),
{
    if s.len() == 0 {
        assert(st.current + s =~= st.current);
    } else {
        let init = s.drop_last();
        let c = s.last();
        lemma_read_escaped(st, init);
        let mid = ShellRead { current: st.current + init, ..st };
        let tail = if c == '\'' {
            seq!['\'', '\\', '\'', '\'']
        } else {
            seq![c]
        };
        assert(escape_quotes(s) == escape_quotes(init) + tail);
        lemma_read_append(st, escape_quotes(init), tail);
        if c == '\'' {
            lemma_read_push(mid, seq!['\'', '\\', '\''], '\'');
            lemma_read_push(mid, seq!['\'', '\\'], '\'');
            lemma_read_push(mid, seq!['\''], '\\');
            lemma_read_push(mid, Seq::empty(), '\'');
            assert(Seq::<char>::empty().push('\'') =~= seq!['\'']);
            assert(seq!['\''].push('\\') =~= seq!['\'', '\\']);
            assert(seq!['\'', '\\'].push('\'') =~= seq!['\'', '\\', '\'']);
            assert(seq!['\'', '\\', '\''].push('\'') =~= tail);
        } else {
            lemma_read_push(mid, Seq::empty(), c);
            assert(Seq::<char>::empty().push(c) =~= tail);
        }
        assert((st.current + init).push(c) =~= st.current + s);
    }
}

/// Reading a quoted value outside any quote adds the value to the word being
/// read.
proof fn lemma_read_quoted(st: ShellRead, s: Seq<char>)
    requires
        !st.in_quotes,
        !st.escaping,
    ensures
        shell_read_from(st, shell_quoted(s)) == (ShellRead {
            current: st.current + s,
            in_word: true,
            ..st
        }),
{
    let opened = ShellRead { in_quotes: true, in_word: true, ..st };
    lemma_read_push(st, Seq::empty(), '\'');
    assert(Seq::<char>::empty().push('\'') =~= seq!['\'']);
    lemma_read_append(st, seq!['\''], escape_quotes(s));
    lemma_read_escaped(opened, s);
    let body = seq!['\''] + escape_quotes(s);
    lemma_read_push(st, body, '\'');
    assert(shell_quoted(s) =~= body.push('\''));
}

/// Reading the quoted arguments joined by spaces yields all but the last as
/// finished words, and the last as the word being read.
proof fn lemma_read_quoted_words(args: Seq<Seq<char>>)
    requires
        args.len() > 0,
    ensures
        shell_read_from(
            shell_start(),
            join(args.map_values(|a: Seq<char>| shell_quoted(a)), seq![' ']),
        ) == (ShellRead { words: args.drop_last(), current: args.last(), in_word: true, ..shell_start() }),
    decreases args.len(),
{
    let q = args.map_values(|a: Seq<char>| shell_quoted(a));
    if args.len() == 1 {
        assert(join(q, seq![' ']) == q[0]);
        lemma_read_quoted(shell_start(), args[0]);
        assert(shell_start().current + args[0] =~= args[0]);
        assert(args.drop_last() =~= Seq::<Seq<char>>::empty());
    } else {
        let init = args.drop_last();
        lemma_read_quoted_words(init);
        assert(q.drop_last() =~= init.map_values(|a: Seq<char>| shell_quoted(a)));
        let before = ShellRead { words: init.drop_last(), current: init.last(), in_word: true, ..shell_start() };
        let prefix = join(q.drop_last(), seq![' ']);
        assert(join(q, seq![' ']) == prefix + seq![' '] + q.last());
        lemma_read_append(shell_start(), prefix + seq![' '], q.last());
        lemma_read_push(shell_start(), prefix, ' ');
        assert(prefix.push(' ') =~= prefix + seq![' ']);
        let after_space = ShellRead { words: init.drop_last().push(init.last()), current: Seq::empty(), in_word: false, ..shell_start() };
        assert(shell_step(before, ' ') == after_space);
        lemma_read_quoted(after_space, args.last());
        assert(init.drop_last().push(init.last()) =~= init);
        assert(Seq::<char>::empty() + args.last() =~= args.last());
    }
}

/// Quoted arguments joined by spaces read back, in a POSIX shell, as exactly
/// those arguments.
pub proof fn lemma_quoted_words_round_trip(args: Seq<Seq<char>>)
    requires
        args.len() > 0,
    ensures
        shell_words(join(args.map_values(|a: Seq<char>| shell_quoted(a)), seq![' '])) == Some(args),
{
    lemma_read_quoted_words(args);
    assert(args.drop_last().push(args.last()) =~= args);
}

/// A quoted value reads back, in a POSIX shell, as exactly that value, as
/// one word: whatever quotes or other characters it holds.
pub proof fn lemma_shell_quote_round_trip(s: Seq<char>)
    ensures
        shell_words(shell_quoted(s)) == Some(seq![s]),
{
    lemma_quoted_words_round_trip(seq![s]);
    assert(seq![s].map_values(|a: Seq<char>| shell_quoted(a)) =~= seq![shell_quoted(s)]);
}

/// Quotes a value as one POSIX shell word (see [`shell_quoted`]).
pub fn shell_quote(value: &str) -> (r: String)
    ensures
        r@ == shell_quoted(value@),
{
    let v = chars_of(value);
    let q = quote_chars(v.as_slice());
    string_from_chars(q.as_slice())
}

/// Quotes a path, given as its (lossily converted) text.
pub fn shell_quote_path(path: &str) -> (r: String)
    ensures
        r@ == shell_quoted(path@),
{
    shell_quote(path)
}

/// The command that starts Codex: always in YOLO mode, and resuming the
/// given conversation where there is one.
pub open spec fn codex_command_text(executable: Seq<char>, conversation: Option<Seq<char>>) -> Seq<char> {
    let base = shell_quoted(executable) + " --yolo"@;
    match conversation {
        Some(c) => base + " resume "@ + shell_quoted(c),
        None => base,
    }
}

/// Builds the command that starts Codex (see [`codex_command_text`]).
pub fn codex_command(executable: &str, conversation: Option<&str>) -> (r: String)
    ensures
        r@ == codex_command_text(executable@, match conversation {
            Some(c) => Some(c@),
            None => None,
        }),
{
    let exe = chars_of(executable);
    let mut out = quote_chars(exe.as_slice());
    let yolo = chars_of(" --yolo");
    append(&mut out, yolo.as_slice());
    match conversation {
        Some(c) => {
            let resume = chars_of(" resume ");
            append(&mut out, resume.as_slice());
            let cv = chars_of(c);
            let q = quote_chars(cv.as_slice());
            append(&mut out, q.as_slice());
        },
        None => {},
    }
    string_from_chars(out.as_slice())
}

/// The arguments of the watchdog command after the executable.
pub open spec fn watchdog_args(session: Seq<char>, pane_id: Seq<char>, config: MonitorConfig) -> Seq<
    Seq<char>,
> {
    seq![
        "--internal-watchdog"@,
        "--pane-id"@,
        pane_id,
        "--session"@,
        session,
        "--watch-interval"@,
        decimal(config.watch_interval as nat),
        "--poll-interval"@,
        decimal(config.poll_interval as nat),
        "--reset-grace"@,
        decimal(config.reset_grace as nat),
        "--status-refresh-count"@,
        decimal(config.status_refresh_count as nat),
        "--status-refresh-delay"@,
        decimal(config.status_refresh_delay as nat),
    ]
}

/// The watchdog command: the executable and its arguments, each quoted,
/// separated by spaces.
pub open spec fn watchdog_command_text(
    executable: Seq<char>,
    session: Seq<char>,
    pane_id: Seq<char>,
    config: MonitorConfig,
) -> Seq<char> {
    join(
        seq![executable].add(watchdog_args(session, pane_id, config)).map_values(
            |a: Seq<char>| shell_quoted(a),
        ),
        seq![' '],
    )
}

fn decimal_chars(n: u64) -> (r: Vec<char>)
    ensures
        r@ == decimal(n as nat),
{
    let mut r: Vec<char> = Vec::new();
    push_decimal(&mut r, n);
    assert(r@ =~= decimal(n as nat));
    r
}

/// Builds the command that runs the watchdog (see [`watchdog_command_text`]).
pub fn watchdog_command(executable: &str, session: &str, pane_id: &str, config: &MonitorConfig) -> (r:
    String)
    ensures
        r@ == watchdog_command_text(executable@, session@, pane_id@, *config),
{
    let words: Vec<Vec<char>> = vec![
        chars_of(executable),
        chars_of("--internal-watchdog"),
        chars_of("--pane-id"),
        chars_of(pane_id),
        chars_of("--session"),
        chars_of(session),
        chars_of("--watch-interval"),
        decimal_chars(config.watch_interval),
        chars_of("--poll-interval"),
        decimal_chars(config.poll_interval),
        chars_of("--reset-grace"),
        decimal_chars(config.reset_grace),
        chars_of("--status-refresh-count"),
        decimal_chars(config.status_refresh_count as u64),
        chars_of("--status-refresh-delay"),
        decimal_chars(config.status_refresh_delay),
    ];
    let ghost all = seq![executable@].add(watchdog_args(session@, pane_id@, *config));
    assert(words.deep_view() =~= all) by {
        assert forall|i: int| 0 <= i < 16 implies words.deep_view()[i] == all[i] by {
            crate::text::lemma_char_vec_deep_view(words@[i]);
        }
    }
    let n = words.len();
    let mut quoted: Vec<Vec<char>> = Vec::new();
    for i in 0..n
        invariant
            n == words@.len(),
            words.deep_view() == all,
            quoted.deep_view() == all.take(i as int).map_values(|a: Seq<char>| shell_quoted(a)),
    {
        proof {
            crate::text::lemma_char_vec_deep_view(words@[i as int]);
        }
        let q = quote_chars(words[i].as_slice());
        let ghost before = quoted.deep_view();
        proof {
            crate::text::lemma_char_vec_deep_view(q);
        }
        quoted.push(q);
        assert(quoted.deep_view() =~= before.push(q@));
        assert(all.take(i + 1).map_values(|a: Seq<char>| shell_quoted(a)) =~= all.take(
            i as int,
        ).map_values(|a: Seq<char>| shell_quoted(a)).push(shell_quoted(all[i as int])));
    }
    assert(all.take(n as int) =~= all);
    let space = vec![' '];
    assert(space@ =~= seq![' ']);
    let joined = join_from(&quoted, 0, space.as_slice());
    assert(quoted.deep_view().skip(0) =~= quoted.deep_view());
    string_from_chars(joined.as_slice())
}

/// A setting that the watchdog refuses.
#[derive(Debug, Clone, Copy, PartialEq, Eq, Structural)]
pub enum ConfigError {
    WatchIntervalZero,
    PollIntervalZero,
    StatusRefreshCountZero,
}

impl ConfigError {
    /// The message shown for the error.
    pub fn message(&self) -> (r: String)
        ensures
            r@ == match self {
                ConfigError::WatchIntervalZero => "--watch-interval must be greater than zero"@,
                ConfigError::PollIntervalZero => "--poll-interval must be greater than zero"@,
                ConfigError::StatusRefreshCountZero => "--status-refresh-count must be greater than zero"@,
            },
    {
        match self {
            ConfigError::WatchIntervalZero => String::from_str("--watch-interval must be greater than zero"),
            ConfigError::PollIntervalZero => String::from_str("--poll-interval must be greater than zero"),
            ConfigError::StatusRefreshCountZero => String::from_str(
                "--status-refresh-count must be greater than zero",
            ),
        }
    }
}

/// Checks the settings: the watch interval, the poll interval and the
/// number of status refreshes must be positive, checked in that order.
pub fn validate_config(config: &MonitorConfig) -> (r: Result<(), ConfigError>)
    ensures
        r == if config.watch_interval == 0 {
            Err(ConfigError::WatchIntervalZero)
        } else if config.poll_interval == 0 {
            Err(ConfigError::PollIntervalZero)
        } else if config.status_refresh_count == 0 {
            Err(ConfigError::StatusRefreshCountZero)
        } else {
            Ok(())
        },
{
    if config.watch_interval == 0 {
        return Err(ConfigError::WatchIntervalZero);
    }
    if config.poll_interval == 0 {
        return Err(ConfigError::PollIntervalZero);
    }
    if config.status_refresh_count == 0 {
        return Err(ConfigError::StatusRefreshCountZero);
    }
    Ok(())
}


/// The watchdog command reads back, in a POSIX shell, as exactly the
/// executable followed by its arguments.
pub proof fn lemma_watchdog_command_round_trip(
    executable: Seq<char>,
    session: Seq<char>,
    pane_id: Seq<char>,
    config: MonitorConfig,
)
    ensures
        shell_words(watchdog_command_text(executable, session, pane_id, config)) == Some(
            seq![executable].add(watchdog_args(session, pane_id, config)),
        ),
{
    lemma_quoted_words_round_trip(seq![executable].add(watchdog_args(session, pane_id, config)));
}


/// The watchdog command reads back, in a POSIX shell, as the executable, the
/// internal-watchdog flag, the pane and the session each after its own
/// option, and each setting in decimal after its own option: the watch
/// interval after `--watch-interval`, the poll interval after
/// `--poll-interval`, the grace after `--reset-grace`, the refresh count
/// after `--status-refresh-count` and the refresh delay after
/// `--status-refresh-delay`.
pub proof fn lemma_watchdog_command_words(
    executable: Seq<char>,
    session: Seq<char>,
    pane_id: Seq<char>,
    config: MonitorConfig,
)
    ensures
        ({
            let watch = decimal(config.watch_interval as nat);
            let poll = decimal(config.poll_interval as nat);
            let grace = decimal(config.reset_grace as nat);
            let count = decimal(config.status_refresh_count as nat);
            let delay = decimal(config.status_refresh_delay as nat);
            shell_words(watchdog_command_text(executable, session, pane_id, config)) == Some(
                seq![
                    executable, "--internal-watchdog"@, "--pane-id"@, pane_id, "--session"@, session,
                    "--watch-interval"@, watch, "--poll-interval"@, poll, "--reset-grace"@, grace,
                    "--status-refresh-count"@, count, "--status-refresh-delay"@, delay,
                ],
            )
        }),
{
    let watch = decimal(config.watch_interval as nat);
    let poll = decimal(config.poll_interval as nat);
    let grace = decimal(config.reset_grace as nat);
    let count = decimal(config.status_refresh_count as nat);
    let delay = decimal(config.status_refresh_delay as nat);
    lemma_watchdog_command_round_trip(executable, session, pane_id, config);
    assert(seq![executable].add(watchdog_args(session, pane_id, config)) =~= seq![
        executable, "--internal-watchdog"@, "--pane-id"@, pane_id, "--session"@, session,
        "--watch-interval"@, watch, "--poll-interval"@, poll, "--reset-grace"@, grace,
        "--status-refresh-count"@, count, "--status-refresh-delay"@, delay,
    ]);
}

proof fn lemma_read_plain(st: ShellRead, w: Seq<char>)
    requires
        !st.in_quotes,
        !st.escaping,
        w.len() > 0,
        forall|i: int| 0 <= i < w.len() ==> shell_plain(#[trigger] w[i]) && w[i] != ' ' && w[i]
            != '\'' && w[i] != '\\',
    ensures
        shell_read_from(st, w) == (ShellRead { current: st.current + w, in_word: true, ..st }),
    decreases w.len(),
{
    let init = w.drop_last();
    if init.len() == 0 {
        lemma_read_push(st, init, w.last());
        assert(init.push(w.last()) =~= w);
        assert(st.current.push(w[0]) =~= st.current + w);
    } else {
        lemma_read_plain(st, init);
        lemma_read_push(st, init, w.last());
        assert(init.push(w.last()) =~= w);
        assert((st.current + init).push(w.last()) =~= st.current + w);
    }
}

proof fn lemma_read_space(st: ShellRead)
    requires
        !st.in_quotes,
        !st.escaping,
        st.in_word,
    ensures
        shell_read_from(st, seq![' ']) == (ShellRead {
            words: st.words.push(st.current),
            current: Seq::empty(),
            in_word: false,
            ..st
        }),
{
    lemma_read_push(st, Seq::empty(), ' ');
    assert(Seq::<char>::empty().push(' ') =~= seq![' ']);
}

/// The Codex command reads back, in a POSIX shell, as the executable,
/// `--yolo`, and `resume` with the conversation where there is one.
pub proof fn lemma_codex_command_round_trip(executable: Seq<char>, conversation: Option<Seq<char>>)
    ensures
        shell_words(codex_command_text(executable, conversation)) == Some(
            match conversation {
                Some(c) => seq![executable, "--yolo"@, "resume"@, c],
                None => seq![executable, "--yolo"@],
            },
        ),
{
    reveal_strlit(" --yolo");
    reveal_strlit("--yolo");
    reveal_strlit(" resume ");
    reveal_strlit("resume");
    let yolo = "--yolo"@;
    let resume = "resume"@;
    assert(" --yolo"@ =~= seq![' '] + yolo);
    assert(" resume "@ =~= seq![' '] + resume + seq![' ']);
    let s0 = shell_start();
    lemma_read_quoted(s0, executable);
    let s1 = ShellRead { current: executable, in_word: true, ..s0 };
    assert(s0.current + executable =~= executable);
    lemma_read_space(s1);
    let s2 = ShellRead { words: seq![executable], current: Seq::empty(), in_word: false, ..s0 };
    assert(Seq::<Seq<char>>::empty().push(executable) =~= seq![executable]);
    lemma_read_plain(s2, yolo);
    let s3 = ShellRead { words: seq![executable], current: yolo, in_word: true, ..s0 };
    assert(Seq::<char>::empty() + yolo =~= yolo);
    let base = shell_quoted(executable) + " --yolo"@;
    lemma_read_append(s0, shell_quoted(executable), seq![' '] + yolo);
    lemma_read_append(s1, seq![' '], yolo);
    assert(shell_read_from(s0, base) == s3);
    match conversation {
        None => {
            assert(seq![executable].push(yolo) =~= seq![executable, "--yolo"@]);
        },
        Some(c) => {
            lemma_read_space(s3);
            let s4 = ShellRead { words: seq![executable, yolo], current: Seq::empty(), in_word: false, ..s0 };
            assert(seq![executable].push(yolo) =~= seq![executable, yolo]);
            lemma_read_plain(s4, resume);
            let s5 = ShellRead { words: seq![executable, yolo], current: resume, in_word: true, ..s0 };
            assert(Seq::<char>::empty() + resume =~= resume);
            lemma_read_space(s5);
            let s6 = ShellRead { words: seq![executable, yolo, resume], current: Seq::empty(), in_word: false, ..s0 };
            assert(seq![executable, yolo].push(resume) =~= seq![executable, yolo, resume]);
            lemma_read_quoted(s6, c);
            let s7 = ShellRead { words: seq![executable, yolo, resume], current: c, in_word: true, ..s0 };
            assert(Seq::<char>::empty() + c =~= c);
            lemma_read_append(s3, seq![' '], resume + seq![' ']);
            lemma_read_append(s4, resume, seq![' ']);
            lemma_read_append(s0, base, " resume "@);
            lemma_read_append(s0, base + " resume "@, shell_quoted(c));
            assert(seq![' '] + resume + seq![' '] =~= seq![' '] + (resume + seq![' ']));
            assert(shell_read_from(s0, base + " resume "@) == s6);
            assert(seq![executable, yolo, resume].push(c) =~= seq![executable, "--yolo"@, "resume"@, c]);
        },
    }
}

} // verus!
