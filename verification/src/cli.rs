use vstd::prelude::*;
use vstd::string::*;
use vstd::arithmetic::div_mod::lemma_fundamental_div_mod;

verus! {

/// Echo requests sent when `--count` is not given.
pub const DEFAULT_COUNT: u16 = 4;

/// Wait for each reply, in milliseconds, when `--timeout` is not given.
pub const DEFAULT_TIMEOUT_MS: u64 = 1000;

/// Pause between requests, in milliseconds, when `--interval` is not given.
pub const DEFAULT_INTERVAL_MS: u64 = 1000;

/// Settings of a ping run. Durations are in milliseconds.
#[derive(Debug)]
pub struct Config {
    pub target: String,
    pub count: u16,
    pub timeout_ms: u64,
    pub interval_ms: u64,
    pub dump_bytes: bool,
}

/// What the command line asks for.
pub enum ParseOutcome {
    Run(Config),
    Help,
}

/// The abstract value of a [`Config`].
pub struct ConfigView {
    pub target: Seq<char>,
    pub count: u16,
    pub timeout_ms: u64,
    pub interval_ms: u64,
    pub dump_bytes: bool,
}

/// The abstract value of a [`ParseOutcome`].
pub enum OutcomeView {
    Run(ConfigView),
    Help,
}

impl View for Config {
    type V = ConfigView;

    open spec fn view(&self) -> ConfigView {
        ConfigView {
            target: self.target@,
            count: self.count,
            timeout_ms: self.timeout_ms,
            interval_ms: self.interval_ms,
            dump_bytes: self.dump_bytes,
        }
    }
}

impl View for ParseOutcome {
    type V = OutcomeView;

    open spec fn view(&self) -> OutcomeView {
        match self {
            ParseOutcome::Run(config) => OutcomeView::Run(config@),
            ParseOutcome::Help => OutcomeView::Help,
        }
    }
}

/// The abstract value of the result of [`parse_args`].
pub open spec fn parse_result_view(r: Result<ParseOutcome, String>) -> Result<OutcomeView, Seq<char>> {
    match r {
        Ok(outcome) => Ok(outcome@),
        Err(message) => Err(message@),
    }
}

// ---------------------------------------------------------------------------
// Unsigned decimal numbers, as `str::parse` reads them
// ---------------------------------------------------------------------------

/// Whether `c` is an ASCII decimal digit.
pub open spec fn is_digit(c: char) -> bool {
    '0' <= c <= '9'
}

/// The value of the decimal digit `c`.
pub open spec fn digit_value(c: char) -> nat {
    if is_digit(c) {
        (c as int - '0' as int) as nat
    } else {
        0
    }
}

/// The value of the decimal numeral `s`.
pub open spec fn digits_value(s: Seq<char>) -> nat
    decreases s.len(),
{
    if s.len() == 0 {
        0
    } else {
        digits_value(s.drop_last()) * 10 + digit_value(s.last())
    }
}

/// `s` without one leading `+`.
pub open spec fn unsigned_digits(s: Seq<char>) -> Seq<char> {
    if s.len() > 0 && s[0] == '+' {
        s.skip(1)
    } else {
        s
    }
}

/// The number that `s` spells for an unsigned integer type whose largest
/// value is `max`: an optional `+` and at least one decimal digit, nothing
/// else, and no more than `max`.
pub open spec fn parse_unsigned(s: Seq<char>, max: nat) -> Option<nat> {
    let digits = unsigned_digits(s);
    if digits.len() > 0 && (forall|i: int| 0 <= i < digits.len() ==> is_digit(#[trigger] digits[i]))
        && digits_value(digits) <= max {
        Some(digits_value(digits))
    } else {
        None
    }
}

proof fn lemma_digits_value_prefix(s: Seq<char>, j: int)
    requires
        0 <= j <= s.len(),
    ensures
        digits_value(s.take(j)) <= digits_value(s),
    decreases s.len(),
{
    if j < s.len() {
        assert(s.drop_last().take(j) =~= s.take(j));
        lemma_digits_value_prefix(s.drop_last(), j);
    } else {
        assert(s.take(j) =~= s);
    }
}

/// What `parse_unsigned` refuses and how it starts: no text and a lone `+`
/// are not numbers, a leading `-` is refused, any character other than an
/// ASCII digit (bar one leading `+`) is refused, and a single digit is its
/// own value.
pub proof fn lemma_parse_unsigned_refusals(s: Seq<char>, c: char, i: int, max: nat)
    ensures
        parse_unsigned(Seq::<char>::empty(), max) is None,
        parse_unsigned(seq!['+'], max) is None,
        s.len() > 0 && s[0] == '-' ==> parse_unsigned(s, max) is None,
        0 <= i < s.len() && !('0' <= s[i] && s[i] <= '9') && !(i == 0 && s[i] == '+')
            ==> parse_unsigned(s, max) is None,
        '0' <= c && c <= '9' && max >= 9 ==> parse_unsigned(seq![c], max) == Some(
            (c as int - 48) as nat,
        ),
{
    assert(seq!['+'].skip(1) =~= Seq::<char>::empty());
    if 0 <= i < s.len() && !('0' <= s[i] && s[i] <= '9') && !(i == 0 && s[i] == '+') {
        let d = unsigned_digits(s);
        if s[0] == '+' {
            assert(d[i - 1] == s[i]);
            assert(!is_digit(d[i - 1]));
        } else {
            assert(!is_digit(d[i]));
        }
    }
    if s.len() > 0 && s[0] == '-' {
        assert(!is_digit(unsigned_digits(s)[0]));
    }
    if '0' <= c && c <= '9' && max >= 9 {
        assert(seq![c].drop_last() =~= Seq::<char>::empty());
    }
}

/// One leading `+` is skipped.
pub proof fn lemma_parse_unsigned_plus(s: Seq<char>, max: nat)
    requires
        s.len() > 0,
        s[0] != '+',
    ensures
        parse_unsigned(seq!['+'] + s, max) == parse_unsigned(s, max),
{
    assert((seq!['+'] + s).skip(1) =~= s);
}

/// Each further digit multiplies the value read so far by ten and adds
/// itself.
pub proof fn lemma_parse_unsigned_next_digit(s: Seq<char>, c: char, max: nat)
    requires
        s.len() > 0,
        s[0] != '+',
        '0' <= c && c <= '9',
    ensures
        parse_unsigned(s.push(c), max) is Some ==> parse_unsigned(s, max) is Some && parse_unsigned(
            s.push(c),
            max,
        )->0 == 10 * parse_unsigned(s, max)->0 + (c as int - 48),
        parse_unsigned(s, max) is Some && 10 * parse_unsigned(s, max)->0 + (c as int - 48) <= max
            ==> parse_unsigned(s.push(c), max) == Some(
            (10 * parse_unsigned(s, max)->0 + (c as int - 48)) as nat,
        ),
{
    let t = s.push(c);
    assert(t[0] == s[0]);
    assert(t.drop_last() =~= s);
    assert(digits_value(t) == digits_value(s) * 10 + (c as int - 48));
    lemma_digits_value_prefix(t, s.len() as int);
    assert(t.take(s.len() as int) =~= s);
    if parse_unsigned(t, max) is Some {
        assert forall|k: int| 0 <= k < s.len() implies is_digit(#[trigger] s[k]) by {
            assert(is_digit(t[k]));
        }
    }
    if parse_unsigned(s, max) is Some && digits_value(s) * 10 + (c as int - 48) <= max {
        assert forall|k: int| 0 <= k < t.len() implies is_digit(#[trigger] t[k]) by {
            if k < s.len() {
                assert(is_digit(s[k]));
            }
        }
    }
}

fn parse_decimal(value: &str, max: u64) -> (parsed: Option<u64>)
    ensures
        match parsed {
            Some(v) => parse_unsigned(value@, max as nat) == Some(v as nat),
            None => parse_unsigned(value@, max as nat) is None,
        },
{
    let ghost s = value@;
    let len = value.unicode_len();
    let mut start: usize = 0;
    if len > 0 && value.get_char(0) == '+' {
        start = 1;
    }
    let ghost digits = unsigned_digits(s);
    assert(digits =~= s.subrange(start as int, len as int));
    if start == len {
        return None;
    }
    let mut i: usize = start;
    let mut acc: u64 = 0;
    while i < len
        invariant
            s == value@,
            len == s.len(),
            start <= i <= len,
            digits == s.subrange(start as int, len as int),
            digits == unsigned_digits(s),
            forall|k: int| 0 <= k < i - start ==> is_digit(#[trigger] digits[k]),
            acc as nat == digits_value(digits.take(i - start)),
            acc <= max,
        decreases len - i,
    {
        let c = value.get_char(i);
        if !('0' <= c && c <= '9') {
            assert(!is_digit(digits[i - start]));
            assert(!(forall|k: int| 0 <= k < digits.len() ==> is_digit(#[trigger] digits[k])));
            return None;
        }
        let d = (c as u32 - '0' as u32) as u64;
        let ghost next = digits.take(i - start + 1);
        assert(next.drop_last() =~= digits.take(i - start));
        assert(digits_value(next) == acc * 10 + d);
        if d > max || acc > (max - d) / 10 {
            proof {
                lemma_fundamental_div_mod((max - d) as int, 10);
                lemma_digits_value_prefix(digits, i - start + 1);
            }
            assert(digits_value(digits) > max);
            return None;
        }
        proof {
            lemma_fundamental_div_mod((max - d) as int, 10);
        }
        acc = acc * 10 + d;
        i = i + 1;
    }
    assert(digits.take(len - start) =~= digits);
    Some(acc)
}

fn parse_u16(value: &str, field: &str) -> (parsed: Result<u16, String>)
    ensures
        match parsed {
            Ok(v) => parse_unsigned(value@, u16::MAX as nat) == Some(v as nat),
            Err(message) => parse_unsigned(value@, u16::MAX as nat) is None && message@ == field@
                + " must be an integer"@,
        },
{
    match parse_decimal(value, u16::MAX as u64) {
        Some(v) => Ok(v as u16),
        None => Err(String::from_str(field).concat(" must be an integer")),
    }
}

fn parse_u64(value: &str, field: &str) -> (parsed: Result<u64, String>)
    ensures
        match parsed {
            Ok(v) => parse_unsigned(value@, u64::MAX as nat) == Some(v as nat),
            Err(message) => parse_unsigned(value@, u64::MAX as nat) is None && message@ == field@
                + " must be an integer"@,
        },
{
    match parse_decimal(value, u64::MAX) {
        Some(v) => Ok(v),
        None => Err(String::from_str(field).concat(" must be an integer")),
    }
}

fn str_eq(a: &str, b: &str) -> (equal: bool)
    ensures
        equal == (a@ == b@),
{
    let len = a.unicode_len();
    if len != b.unicode_len() {
        return false;
    }
    let mut i: usize = 0;
    while i < len
        invariant
            len == a@.len(),
            len == b@.len(),
            i <= len,
            forall|k: int| 0 <= k < i ==> a@[k] == b@[k],
        decreases len - i,
    {
        if a.get_char(i) != b.get_char(i) {
            return false;
        }
        i = i + 1;
    }
    assert(a@ =~= b@);
    true
}

// ---------------------------------------------------------------------------
// The command line
// ---------------------------------------------------------------------------

/// What the options read so far have set.
pub struct ArgState {
    pub target: Option<Seq<char>>,
    pub count: u16,
    pub timeout_ms: u64,
    pub interval_ms: u64,
    pub dump_bytes: bool,
}

/// The settings before any option is read.
pub open spec fn initial_arg_state() -> ArgState {
    ArgState {
        target: None,
        count: DEFAULT_COUNT,
        timeout_ms: DEFAULT_TIMEOUT_MS,
        interval_ms: DEFAULT_INTERVAL_MS,
        dump_bytes: false,
    }
}

/// Reads the arguments from index `i` on, starting from the settings `st`.
pub open spec fn parse_args_from(args: Seq<Seq<char>>, i: int, st: ArgState) -> Result<
    OutcomeView,
    Seq<char>,
>
    decreases args.len() - i,
{
    if i < 0 || i >= args.len() {
        match st.target {
            Some(target) => Ok(
                OutcomeView::Run(
                    ConfigView {
                        target,
                        count: st.count,
                        timeout_ms: st.timeout_ms,
                        interval_ms: st.interval_ms,
                        dump_bytes: st.dump_bytes,
                    },
                ),
            ),
            None => Err("target host is required"@),
        }
    } else {
        let arg = args[i];
        if arg == "-h"@ || arg == "--help"@ {
            Ok(OutcomeView::Help)
        } else if arg == "--dump-bytes"@ {
            parse_args_from(args, i + 1, ArgState { dump_bytes: true, ..st })
        } else if arg == "-c"@ || arg == "--count"@ {
            if i + 1 >= args.len() {
                Err("missing value for --count"@)
            } else {
                match parse_unsigned(args[i + 1], u16::MAX as nat) {
                    Some(v) => parse_args_from(args, i + 2, ArgState { count: v as u16, ..st }),
                    None => Err("count"@ + " must be an integer"@),
                }
            }
        } else if arg == "-W"@ || arg == "--timeout"@ {
            if i + 1 >= args.len() {
                Err("missing value for --timeout"@)
            } else {
                match parse_unsigned(args[i + 1], u64::MAX as nat) {
                    Some(v) => parse_args_from(
                        args,
                        i + 2,
                        ArgState { timeout_ms: v as u64, ..st },
                    ),
                    None => Err("timeout"@ + " must be an integer"@),
                }
            }
        } else if arg == "-i"@ || arg == "--interval"@ {
            if i + 1 >= args.len() {
                Err("missing value for --interval"@)
            } else {
                match parse_unsigned(args[i + 1], u64::MAX as nat) {
                    Some(v) => parse_args_from(
                        args,
                        i + 2,
                        ArgState { interval_ms: v as u64, ..st },
                    ),
                    None => Err("interval"@ + " must be an integer"@),
                }
            }
        } else if st.target is None {
            parse_args_from(args, i + 1, ArgState { target: Some(arg), ..st })
        } else {
            Err("unknown argument: "@ + arg)
        }
    }
}

/// What the command line `args` asks for; `args[0]` is the program name.
pub open spec fn spec_parse_args(args: Seq<Seq<char>>) -> Result<OutcomeView, Seq<char>> {
    parse_args_from(args, 1, initial_arg_state())
}

/// The views of a list of strings.
pub open spec fn string_views(args: Seq<String>) -> Seq<Seq<char>> {
    args.map_values(|a: String| a@)
}

/// Reads the command line `args`, whose first element is the program name.
pub fn parse_args(args: &[String]) -> (outcome: Result<ParseOutcome, String>)
    ensures
        parse_result_view(outcome) == spec_parse_args(string_views(args@)),
{
    let ghost views = string_views(args@);
    let mut target: Option<String> = None;
    let mut count: u16 = DEFAULT_COUNT;
    let mut timeout_ms: u64 = DEFAULT_TIMEOUT_MS;
    let mut interval_ms: u64 = DEFAULT_INTERVAL_MS;
    let mut dump_bytes = false;
    let mut i: usize = 1;
    while i < args.len()
        invariant
            views == string_views(args@),
            1 <= i,
            spec_parse_args(views) == parse_args_from(
                views,
                i as int,
                ArgState {
                    target: match target {
                        Some(t) => Some(t@),
                        None => None,
                    },
                    count,
                    timeout_ms,
                    interval_ms,
                    dump_bytes,
                },
            ),
        decreases args.len() - i,
    {
        let arg = args[i].as_str();
        assert(arg@ == views[i as int]);
        if str_eq(arg, "-h") || str_eq(arg, "--help") {
            return Ok(ParseOutcome::Help);
        } else if str_eq(arg, "--dump-bytes") {
            dump_bytes = true;
            i = i + 1;
        } else if str_eq(arg, "-c") || str_eq(arg, "--count") {
            if i + 1 >= args.len() {
                return Err(String::from_str("missing value for --count"));
            }
            assert(args[i + 1]@ == views[i + 1]);
            match parse_u16(args[i + 1].as_str(), "count") {
                Ok(v) => {
                    count = v;
                },
                Err(message) => {
                    return Err(message);
                },
            }
            i = i + 2;
        } else if str_eq(arg, "-W") || str_eq(arg, "--timeout") {
            if i + 1 >= args.len() {
                return Err(String::from_str("missing value for --timeout"));
            }
            assert(args[i + 1]@ == views[i + 1]);
            match parse_u64(args[i + 1].as_str(), "timeout") {
                Ok(v) => {
                    timeout_ms = v;
                },
                Err(message) => {
                    return Err(message);
                },
            }
            i = i + 2;
        } else if str_eq(arg, "-i") || str_eq(arg, "--interval") {
            if i + 1 >= args.len() {
                return Err(String::from_str("missing value for --interval"));
            }
            assert(args[i + 1]@ == views[i + 1]);
            match parse_u64(args[i + 1].as_str(), "interval") {
                Ok(v) => {
                    interval_ms = v;
                },
                Err(message) => {
                    return Err(message);
                },
            }
            i = i + 2;
        } else if target.is_none() {
            target = Some(args[i].clone());
            i = i + 1;
        } else {
            return Err(String::from_str("unknown argument: ").concat(arg));
        }
    }
    match target {
        Some(target) => Ok(
            ParseOutcome::Run(Config { target, count, timeout_ms, interval_ms, dump_bytes }),
        ),
        None => Err(String::from_str("target host is required")),
    }
}


// ---------------------------------------------------------------------------
// The command line of the `ping_reply` responder
// ---------------------------------------------------------------------------

/// Settings of the responder.
#[derive(Debug)]
pub struct ResponderConfig {
    pub dump_bytes: bool,
}

/// Why the responder does not start: help was asked for, or an argument is
/// not understood.
#[derive(Debug)]
pub enum ResponderOutcome {
    Help,
    Message(String),
}

/// The abstract value of a [`ResponderOutcome`].
pub enum ResponderOutcomeView {
    Help,
    Message(Seq<char>),
}

/// The abstract value of the result of [`parse_responder_args`]: the
/// `dump_bytes` setting, or why the responder does not start.
pub open spec fn responder_result_view(r: Result<ResponderConfig, ResponderOutcome>) -> Result<
    bool,
    ResponderOutcomeView,
> {
    match r {
        Ok(config) => Ok(config.dump_bytes),
        Err(ResponderOutcome::Help) => Err(ResponderOutcomeView::Help),
        Err(ResponderOutcome::Message(message)) => Err(ResponderOutcomeView::Message(message@)),
    }
}

/// Reads the responder's arguments from index `i` on.
pub open spec fn responder_args_from(args: Seq<Seq<char>>, i: int, dump_bytes: bool) -> Result<
    bool,
    ResponderOutcomeView,
>
    decreases args.len() - i,
{
    if i < 0 || i >= args.len() {
        Ok(dump_bytes)
    } else if args[i] == "-h"@ || args[i] == "--help"@ {
        Err(ResponderOutcomeView::Help)
    } else if args[i] == "--dump-bytes"@ {
        responder_args_from(args, i + 1, true)
    } else {
        Err(ResponderOutcomeView::Message("unknown argument: "@ + args[i]))
    }
}

/// Reads the responder's command line `args`, whose first element is the
/// program name.
pub fn parse_responder_args(args: &[String]) -> (outcome: Result<ResponderConfig, ResponderOutcome>)
    ensures
        responder_result_view(outcome) == responder_args_from(string_views(args@), 1, false),
{
    let ghost views = string_views(args@);
    let mut dump_bytes = false;
    let mut i: usize = 1;
    while i < args.len()
        invariant
            views == string_views(args@),
            1 <= i,
            responder_args_from(views, 1, false) == responder_args_from(views, i as int, dump_bytes),
        decreases args.len() - i,
    {
        let arg = args[i].as_str();
        assert(arg@ == views[i as int]);
        if str_eq(arg, "-h") || str_eq(arg, "--help") {
            return Err(ResponderOutcome::Help);
        } else if str_eq(arg, "--dump-bytes") {
            dump_bytes = true;
        } else {
            return Err(ResponderOutcome::Message(String::from_str("unknown argument: ").concat(arg)));
        }
        i = i + 1;
    }
    Ok(ResponderConfig { dump_bytes })
}

// ---------------------------------------------------------------------------
// Laws of the command line
// ---------------------------------------------------------------------------

/// Whether `a` names the count option.
pub open spec fn is_count_flag(a: Seq<char>) -> bool {
    a == "-c"@ || a == "--count"@
}

/// Whether `a` names the timeout option.
pub open spec fn is_timeout_flag(a: Seq<char>) -> bool {
    a == "-W"@ || a == "--timeout"@
}

/// Whether `a` names the interval option.
pub open spec fn is_interval_flag(a: Seq<char>) -> bool {
    a == "-i"@ || a == "--interval"@
}

/// Whether `opts` is a run of complete options: `--dump-bytes`, or a count,
/// timeout or interval flag followed by a value in range.
pub open spec fn complete_options(opts: Seq<Seq<char>>) -> bool
    decreases opts.len(),
{
    if opts.len() == 0 {
        true
    } else if opts[0] == "--dump-bytes"@ {
        complete_options(opts.skip(1))
    } else if is_count_flag(opts[0]) {
        opts.len() >= 2 && parse_unsigned(opts[1], u16::MAX as nat) is Some && complete_options(
            opts.skip(2),
        )
    } else if is_timeout_flag(opts[0]) || is_interval_flag(opts[0]) {
        opts.len() >= 2 && parse_unsigned(opts[1], u64::MAX as nat) is Some && complete_options(
            opts.skip(2),
        )
    } else {
        false
    }
}

/// The settings after the complete options `opts`, read from `st` on: each
/// field is set by the last option that names it.
pub open spec fn apply_options(opts: Seq<Seq<char>>, st: ArgState) -> ArgState
    decreases opts.len(),
{
    if opts.len() == 0 {
        st
    } else if opts[0] == "--dump-bytes"@ {
        apply_options(opts.skip(1), ArgState { dump_bytes: true, ..st })
    } else if opts.len() < 2 {
        st
    } else if is_count_flag(opts[0]) {
        apply_options(
            opts.skip(2),
            ArgState { count: parse_unsigned(opts[1], u16::MAX as nat)->0 as u16, ..st },
        )
    } else if is_timeout_flag(opts[0]) {
        apply_options(
            opts.skip(2),
            ArgState { timeout_ms: parse_unsigned(opts[1], u64::MAX as nat)->0 as u64, ..st },
        )
    } else if is_interval_flag(opts[0]) {
        apply_options(
            opts.skip(2),
            ArgState { interval_ms: parse_unsigned(opts[1], u64::MAX as nat)->0 as u64, ..st },
        )
    } else {
        st
    }
}

/// The configuration that the settings `st` and the target `target` make.
pub open spec fn config_of(st: ArgState, target: Seq<char>) -> ConfigView {
    ConfigView {
        target,
        count: st.count,
        timeout_ms: st.timeout_ms,
        interval_ms: st.interval_ms,
        dump_bytes: st.dump_bytes,
    }
}

proof fn lemma_option_names()
    ensures
        "-h"@.len() == 2 && "-h"@[0] == '-' && "-h"@[1] == 'h',
        "-c"@.len() == 2 && "-c"@[0] == '-' && "-c"@[1] == 'c',
        "-W"@.len() == 2 && "-W"@[0] == '-' && "-W"@[1] == 'W',
        "-i"@.len() == 2 && "-i"@[0] == '-' && "-i"@[1] == 'i',
        "--help"@.len() == 6 && "--help"@[0] == '-',
        "--count"@.len() == 7 && "--count"@[0] == '-',
        "--timeout"@.len() == 9 && "--timeout"@[0] == '-',
        "--interval"@.len() == 10 && "--interval"@[0] == '-',
        "--dump-bytes"@.len() == 12 && "--dump-bytes"@[0] == '-',
{
    reveal_strlit("-h");
    reveal_strlit("-c");
    reveal_strlit("-W");
    reveal_strlit("-i");
    reveal_strlit("--help");
    reveal_strlit("--count");
    reveal_strlit("--timeout");
    reveal_strlit("--interval");
    reveal_strlit("--dump-bytes");
}

proof fn lemma_apply_options_keeps_target(opts: Seq<Seq<char>>, st: ArgState, target: Option<Seq<char>>)
    ensures
        apply_options(opts, ArgState { target, ..st }) == (ArgState {
            target,
            ..apply_options(opts, st)
        }),
        apply_options(opts, st).target == st.target,
    decreases opts.len(),
{
    if opts.len() > 0 {
        if opts[0] == "--dump-bytes"@ {
            lemma_apply_options_keeps_target(opts.skip(1), ArgState { dump_bytes: true, ..st }, target);
        } else if opts.len() >= 2 {
            let v16 = parse_unsigned(opts[1], u16::MAX as nat)->0 as u16;
            let v64 = parse_unsigned(opts[1], u64::MAX as nat)->0 as u64;
            lemma_apply_options_keeps_target(opts.skip(2), ArgState { count: v16, ..st }, target);
            lemma_apply_options_keeps_target(opts.skip(2), ArgState { timeout_ms: v64, ..st }, target);
            lemma_apply_options_keeps_target(opts.skip(2), ArgState { interval_ms: v64, ..st }, target);
        }
    }
}

proof fn lemma_read_complete_options(args: Seq<Seq<char>>, i: int, opts: Seq<Seq<char>>, st: ArgState)
    requires
        complete_options(opts),
        0 <= i,
        i + opts.len() <= args.len(),
        args.subrange(i, i + opts.len()) == opts,
    ensures
        parse_args_from(args, i, st) == parse_args_from(
            args,
            i + opts.len(),
            apply_options(opts, st),
        ),
    decreases opts.len(),
{
    lemma_option_names();
    if opts.len() > 0 {
        assert(args[i] == opts[0]);
        if opts[0] == "--dump-bytes"@ {
            assert(args.subrange(i + 1, i + opts.len()) =~= opts.skip(1));
            lemma_read_complete_options(args, i + 1, opts.skip(1), ArgState { dump_bytes: true, ..st });
        } else {
            assert(args[i + 1] == opts[1]);
            assert(args.subrange(i + 2, i + opts.len()) =~= opts.skip(2));
            let v16 = parse_unsigned(opts[1], u16::MAX as nat)->0 as u16;
            let v64 = parse_unsigned(opts[1], u64::MAX as nat)->0 as u64;
            if is_count_flag(opts[0]) {
                lemma_read_complete_options(args, i + 2, opts.skip(2), ArgState { count: v16, ..st });
            } else if is_timeout_flag(opts[0]) {
                lemma_read_complete_options(
                    args,
                    i + 2,
                    opts.skip(2),
                    ArgState { timeout_ms: v64, ..st },
                );
            } else {
                lemma_read_complete_options(
                    args,
                    i + 2,
                    opts.skip(2),
                    ArgState { interval_ms: v64, ..st },
                );
            }
        }
    }
}

/// A target that does not look like an option may stand before or after a
/// run of complete options: either way the command line asks to run with
/// that target and with each setting taken from the last option that names
/// it, or its default.
pub proof fn lemma_target_position_irrelevant(
    program: Seq<char>,
    target: Seq<char>,
    opts: Seq<Seq<char>>,
)
    requires
        complete_options(opts),
        target.len() == 0 || target[0] != '-',
    ensures
        spec_parse_args(seq![program, target] + opts) == Ok::<OutcomeView, Seq<char>>(
            OutcomeView::Run(config_of(apply_options(opts, initial_arg_state()), target)),
        ),
        spec_parse_args(seq![program] + opts + seq![target]) == spec_parse_args(
            seq![program, target] + opts,
        ),
{
    lemma_option_names();
    let st0 = initial_arg_state();
    let with_target = ArgState { target: Some(target), ..st0 };
    lemma_apply_options_keeps_target(opts, st0, Some(target));

    let first = seq![program, target] + opts;
    assert(first[1] == target);
    assert(first.subrange(2, 2 + opts.len() as int) =~= opts);
    lemma_read_complete_options(first, 2, opts, with_target);
    assert(first.len() == 2 + opts.len());

    let last = seq![program] + opts + seq![target];
    assert(last.subrange(1, 1 + opts.len() as int) =~= opts);
    lemma_read_complete_options(last, 1, opts, st0);
    let after = apply_options(opts, st0);
    assert(last[1 + opts.len() as int] == target);
    assert(parse_args_from(last, 1 + opts.len() as int, after) == parse_args_from(
        last,
        2 + opts.len() as int,
        ArgState { target: Some(target), ..after },
    ));
}

proof fn lemma_apply_options_concat(o1: Seq<Seq<char>>, o2: Seq<Seq<char>>, st: ArgState)
    requires
        complete_options(o1),
    ensures
        apply_options(o1 + o2, st) == apply_options(o2, apply_options(o1, st)),
    decreases o1.len(),
{
    if o1.len() == 0 {
        assert(o1 + o2 =~= o2);
    } else {
        let both = o1 + o2;
        assert(both[0] == o1[0]);
        if o1[0] == "--dump-bytes"@ {
            assert(both.skip(1) =~= o1.skip(1) + o2);
            lemma_apply_options_concat(o1.skip(1), o2, ArgState { dump_bytes: true, ..st });
        } else {
            assert(both[1] == o1[1]);
            assert(both.skip(2) =~= o1.skip(2) + o2);
            let v16 = parse_unsigned(o1[1], u16::MAX as nat)->0 as u16;
            let v64 = parse_unsigned(o1[1], u64::MAX as nat)->0 as u64;
            lemma_apply_options_concat(o1.skip(2), o2, ArgState { count: v16, ..st });
            lemma_apply_options_concat(o1.skip(2), o2, ArgState { timeout_ms: v64, ..st });
            lemma_apply_options_concat(o1.skip(2), o2, ArgState { interval_ms: v64, ..st });
        }
    }
}

/// A target that does not look like an option may stand anywhere among
/// complete options: the command line asks to run with that target, and
/// every option before and after it takes effect, each setting taken from
/// the last option that names it.
pub proof fn lemma_target_among_options(
    program: Seq<char>,
    before: Seq<Seq<char>>,
    target: Seq<char>,
    after: Seq<Seq<char>>,
)
    requires
        complete_options(before),
        complete_options(after),
        target.len() == 0 || target[0] != '-',
    ensures
        spec_parse_args(seq![program] + before + seq![target] + after) == Ok::<
            OutcomeView,
            Seq<char>,
        >(OutcomeView::Run(config_of(apply_options(before + after, initial_arg_state()), target))),
{
    lemma_option_names();
    let st0 = initial_arg_state();
    let args = seq![program] + before + seq![target] + after;
    let b = before.len() as int;
    assert(args.subrange(1, 1 + b) =~= before);
    lemma_read_complete_options(args, 1, before, st0);
    let st1 = apply_options(before, st0);
    lemma_apply_options_keeps_target(before, st0, None);
    assert(args[1 + b] == target);
    let st2 = ArgState { target: Some(target), ..st1 };
    assert(parse_args_from(args, 1 + b, st1) == parse_args_from(args, 2 + b, st2));
    assert(args.subrange(2 + b, 2 + b + after.len()) =~= after);
    lemma_read_complete_options(args, 2 + b, after, st2);
    lemma_apply_options_keeps_target(after, st1, Some(target));
    lemma_apply_options_concat(before, after, st0);
    assert(args.len() == 2 + b + after.len());
}

/// An argument list whose first argument is `-h` or `--help` asks for help.
pub proof fn lemma_help_first(args: Seq<Seq<char>>)
    requires
        args.len() >= 2,
        args[1] == "-h"@ || args[1] == "--help"@,
    ensures
        spec_parse_args(args) == Ok::<OutcomeView, Seq<char>>(OutcomeView::Help),
        responder_args_from(args, 1, false) == Err::<bool, ResponderOutcomeView>(
            ResponderOutcomeView::Help,
        ),
{
}

proof fn lemma_responder_args_from(args: Seq<Seq<char>>, i: int, dump_bytes: bool)
    requires
        1 <= i <= args.len(),
    ensures
        (forall|k: int| i <= k < args.len() ==> args[k] == "--dump-bytes"@) ==> responder_args_from(
            args,
            i,
            dump_bytes,
        ) == Ok::<bool, ResponderOutcomeView>(dump_bytes || i < args.len()),
        forall|k: int|
            i <= k < args.len() && args[k] != "--dump-bytes"@ && (forall|j: int|
                i <= j < k ==> args[j] == "--dump-bytes"@) ==> responder_args_from(
                args,
                i,
                dump_bytes,
            ) == if args[k] == "-h"@ || args[k] == "--help"@ {
                Err::<bool, ResponderOutcomeView>(ResponderOutcomeView::Help)
            } else {
                Err(ResponderOutcomeView::Message("unknown argument: "@ + args[k]))
            },
    decreases args.len() - i,
{
    lemma_option_names();
    if i < args.len() {
        lemma_responder_args_from(args, i + 1, true);
        lemma_responder_args_from(args, i + 1, dump_bytes);
    }
}

/// The responder's command line: with only `--dump-bytes` arguments it runs,
/// dumping exactly when there is one; otherwise the first other argument
/// decides: `-h` or `--help` asks for help, anything else is reported as
/// an unknown argument.
pub proof fn lemma_responder_args(args: Seq<Seq<char>>)
    requires
        args.len() >= 1,
    ensures
        (forall|k: int| 1 <= k < args.len() ==> args[k] == "--dump-bytes"@) ==> responder_args_from(
            args,
            1,
            false,
        ) == Ok::<bool, ResponderOutcomeView>(args.len() > 1),
        forall|k: int|
            1 <= k < args.len() && args[k] != "--dump-bytes"@ && (forall|j: int|
                1 <= j < k ==> args[j] == "--dump-bytes"@) ==> responder_args_from(args, 1, false)
                == if args[k] == "-h"@ || args[k] == "--help"@ {
                Err::<bool, ResponderOutcomeView>(ResponderOutcomeView::Help)
            } else {
                Err(ResponderOutcomeView::Message("unknown argument: "@ + args[k]))
            },
{
    lemma_responder_args_from(args, 1, false);
}

/// What goes wrong after a run of complete options: no target at all, an
/// option missing its value, or a value that is not a number in range.
pub proof fn lemma_option_errors(
    program: Seq<char>,
    opts: Seq<Seq<char>>,
    flag: Seq<char>,
    value: Seq<char>,
    rest: Seq<Seq<char>>,
)
    requires
        complete_options(opts),
    ensures
        spec_parse_args(seq![program] + opts) == Err::<OutcomeView, Seq<char>>(
            "target host is required"@,
        ),
        is_count_flag(flag) ==> spec_parse_args(seq![program] + opts + seq![flag]) == Err::<
            OutcomeView,
            Seq<char>,
        >("missing value for --count"@),
        is_timeout_flag(flag) ==> spec_parse_args(seq![program] + opts + seq![flag]) == Err::<
            OutcomeView,
            Seq<char>,
        >("missing value for --timeout"@),
        is_interval_flag(flag) ==> spec_parse_args(seq![program] + opts + seq![flag]) == Err::<
            OutcomeView,
            Seq<char>,
        >("missing value for --interval"@),
        is_count_flag(flag) && parse_unsigned(value, u16::MAX as nat) is None ==> spec_parse_args(
            seq![program] + opts + seq![flag, value] + rest,
        ) == Err::<OutcomeView, Seq<char>>("count must be an integer"@),
        is_timeout_flag(flag) && parse_unsigned(value, u64::MAX as nat) is None
            ==> spec_parse_args(seq![program] + opts + seq![flag, value] + rest) == Err::<
            OutcomeView,
            Seq<char>,
        >("timeout must be an integer"@),
        is_interval_flag(flag) && parse_unsigned(value, u64::MAX as nat) is None
            ==> spec_parse_args(seq![program] + opts + seq![flag, value] + rest) == Err::<
            OutcomeView,
            Seq<char>,
        >("interval must be an integer"@),
{
    lemma_option_names();
    let st0 = initial_arg_state();
    let o = opts.len() as int;
    lemma_apply_options_keeps_target(opts, st0, None);
    let st1 = apply_options(opts, st0);

    let a0 = seq![program] + opts;
    assert(a0.subrange(1, 1 + o) =~= opts);
    lemma_read_complete_options(a0, 1, opts, st0);

    let a1 = seq![program] + opts + seq![flag];
    assert(a1.subrange(1, 1 + o) =~= opts);
    lemma_read_complete_options(a1, 1, opts, st0);
    assert(a1[1 + o] == flag);

    let a2 = seq![program] + opts + seq![flag, value] + rest;
    assert(a2.subrange(1, 1 + o) =~= opts);
    lemma_read_complete_options(a2, 1, opts, st0);
    assert(a2[1 + o] == flag);
    assert(a2[2 + o] == value);

    reveal_strlit("count");
    reveal_strlit("timeout");
    reveal_strlit("interval");
    reveal_strlit(" must be an integer");
    reveal_strlit("count must be an integer");
    reveal_strlit("timeout must be an integer");
    reveal_strlit("interval must be an integer");
    assert("count"@ + " must be an integer"@ =~= "count must be an integer"@);
    assert("timeout"@ + " must be an integer"@ =~= "timeout must be an integer"@);
    assert("interval"@ + " must be an integer"@ =~= "interval must be an integer"@);
}

/// A second argument that does not look like an option, after a target has
/// been read, is an unknown argument.
pub proof fn lemma_second_target(
    program: Seq<char>,
    before: Seq<Seq<char>>,
    target: Seq<char>,
    after: Seq<Seq<char>>,
    extra: Seq<char>,
    rest: Seq<Seq<char>>,
)
    requires
        complete_options(before),
        complete_options(after),
        target.len() == 0 || target[0] != '-',
        extra.len() == 0 || extra[0] != '-',
    ensures
        spec_parse_args(seq![program] + before + seq![target] + after + seq![extra] + rest)
            == Err::<OutcomeView, Seq<char>>("unknown argument: "@ + extra),
{
    lemma_option_names();
    let st0 = initial_arg_state();
    let args = seq![program] + before + seq![target] + after + seq![extra] + rest;
    let b = before.len() as int;
    let a = after.len() as int;
    assert(args.subrange(1, 1 + b) =~= before);
    lemma_read_complete_options(args, 1, before, st0);
    let st1 = apply_options(before, st0);
    lemma_apply_options_keeps_target(before, st0, None);
    assert(args[1 + b] == target);
    let st2 = ArgState { target: Some(target), ..st1 };
    assert(parse_args_from(args, 1 + b, st1) == parse_args_from(args, 2 + b, st2));
    assert(args.subrange(2 + b, 2 + b + a) =~= after);
    lemma_read_complete_options(args, 2 + b, after, st2);
    lemma_apply_options_keeps_target(after, st2, Some(target));
    assert(args[2 + b + a] == extra);
}

/// With only a target, the run sends 4 requests, waits 1000 ms for each
/// reply and 1000 ms between requests, and dumps nothing.
pub proof fn lemma_defaults(program: Seq<char>, target: Seq<char>)
    requires
        target.len() == 0 || target[0] != '-',
    ensures
        spec_parse_args(seq![program, target]) == Ok::<OutcomeView, Seq<char>>(
            OutcomeView::Run(
                ConfigView {
                    target,
                    count: 4,
                    timeout_ms: 1000,
                    interval_ms: 1000,
                    dump_bytes: false,
                },
            ),
        ),
{
    let none = Seq::<Seq<char>>::empty();
    lemma_target_among_options(program, none, target, none);
    assert(seq![program] + none + seq![target] + none =~= seq![program, target]);
    assert(none + none =~= none);
}

/// The help text of the `rust_ping` command.
pub open spec fn usage_text() -> Seq<char> {
    "Usage: rust_ping [options] <host>

Options:
  -c, --count <n>       Number of echo requests to send (default: 4)
  -W, --timeout <ms>    Timeout per request in milliseconds (default: 1000)
  -i, --interval <ms>   Delay between requests in milliseconds (default: 1000)
  --dump-bytes          Print sent and received packets in hex
  -h, --help            Show this help message

Notes:
  - IPv4 only
  - Raw ICMP sockets usually require sudo/root
"@
}

/// The help text of the `rust_ping` command.
pub fn usage() -> (text: &'static str)
    ensures
        text@ == usage_text(),
{
    "Usage: rust_ping [options] <host>

Options:
  -c, --count <n>       Number of echo requests to send (default: 4)
  -W, --timeout <ms>    Timeout per request in milliseconds (default: 1000)
  -i, --interval <ms>   Delay between requests in milliseconds (default: 1000)
  --dump-bytes          Print sent and received packets in hex
  -h, --help            Show this help message

Notes:
  - IPv4 only
  - Raw ICMP sockets usually require sudo/root
"
}

} // verus!
