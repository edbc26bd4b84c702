//! The command line of the proxy.

use vstd::prelude::*;
use vstd::string::*;

use crate::server::ShedMode;

verus! {

/// How long the parent drains if the command line does not say, in seconds.
pub const DEFAULT_DRAIN_TIMEOUT_SECS: u64 = 60;

/// What the command line asks for; addresses are yet to be parsed.
#[derive(Clone, Debug)]
pub struct Arguments {
    pub listen: String,
    pub broker: String,
    pub drain_timeout_secs: u64,
    pub mode: ShedMode,
}

/// What a part of the command line asks for.
#[verifier::ext_equal]
pub struct ArgumentsView {
    pub listen: Option<Seq<char>>,
    pub broker: Option<Seq<char>>,
    pub drain_timeout_secs: u64,
    pub mode: ShedMode,
}

impl View for Arguments {
    type V = ArgumentsView;

    open spec fn view(&self) -> ArgumentsView {
        ArgumentsView {
            listen: Some(self.listen@),
            broker: Some(self.broker@),
            drain_timeout_secs: self.drain_timeout_secs,
            mode: self.mode,
        }
    }
}

/// Whether a character is a decimal digit.
pub open spec fn is_digit(c: char) -> bool {
    '0' <= c && c <= '9'
}

/// The number that decimal digits stand for.
pub open spec fn number(digits: Seq<char>) -> nat
    decreases digits.len(),
{
    if digits.len() == 0 {
        0
    } else {
        number(digits.drop_last()) * 10 + (digits.last() as nat - '0' as nat) as nat
    }
}

/// The number that decimal digits stand for, if they are digits, and not too
/// many.
pub open spec fn digits_number(digits: Seq<char>) -> Option<u64> {
    if digits.len() > 0 && (forall|i: int| 0 <= i < digits.len() ==> is_digit(#[trigger] digits[i]))
        && number(digits) <= u64::MAX {
        Some(number(digits) as u64)
    } else {
        None
    }
}

/// The number that a text stands for: digits, behind an optional plus sign.
pub open spec fn parsed_number(text: Seq<char>) -> Option<u64> {
    if text.len() > 0 && text[0] == '+' {
        digits_number(text.skip(1))
    } else {
        digits_number(text)
    }
}

/// The mode that a text stands for.
pub open spec fn parsed_mode(text: Seq<char>) -> Option<ShedMode> {
    if text == "drain"@ {
        Some(ShedMode::Drain)
    } else if text == "migrate"@ {
        Some(ShedMode::Migrate)
    } else {
        None
    }
}

impl ArgumentsView {
    /// What an empty command line asks for.
    pub open spec fn defaults() -> ArgumentsView {
        ArgumentsView {
            listen: None,
            broker: None,
            drain_timeout_secs: DEFAULT_DRAIN_TIMEOUT_SECS,
            mode: ShedMode::Drain,
        }
    }

    /// With one more option and its value; None if there is no such option or
    /// it has no such value.
    pub open spec fn with_option(self, name: Seq<char>, value: Seq<char>) -> Option<ArgumentsView> {
        if name == "--listen"@ {
            Some(ArgumentsView { listen: Some(value), ..self })
        } else if name == "--broker"@ {
            Some(ArgumentsView { broker: Some(value), ..self })
        } else if name == "--drain-timeout-secs"@ {
            match parsed_number(value) {
                Some(secs) => Some(ArgumentsView { drain_timeout_secs: secs, ..self }),
                None => None,
            }
        } else if name == "--mode"@ {
            match parsed_mode(value) {
                Some(mode) => Some(ArgumentsView { mode, ..self }),
                None => None,
            }
        } else {
            None
        }
    }

    /// What is asked for after the arguments from an index on, which come in
    /// pairs; None if one is not understood.
    pub open spec fn with_rest(self, args: Seq<Seq<char>>, from: int) -> Option<ArgumentsView>
        decreases args.len() - from,
    {
        if from >= args.len() {
            Some(self)
        } else if from + 1 >= args.len() {
            None
        } else {
            match self.with_option(args[from], args[from + 1]) {
                Some(next) => next.with_rest(args, from + 2),
                None => None,
            }
        }
    }
}

/// What a command line asks for; None if it is not understood or names no
/// address to listen on or no broker.
pub open spec fn parsed_args(args: Seq<Seq<char>>) -> Option<ArgumentsView> {
    match ArgumentsView::defaults().with_rest(args, 0) {
        Some(parsed) => if parsed.listen is Some && parsed.broker is Some {
            Some(parsed)
        } else {
            None
        },
        None => None,
    }
}

proof fn lemma_number_grows(digits: Seq<char>, n: int)
    requires
        0 <= n <= digits.len(),
    ensures
        number(digits.take(n)) <= number(digits),
    decreases digits.len() - n,
{
    if n < digits.len() {
        lemma_number_grows(digits, n + 1);
        assert(digits.take(n + 1).drop_last() =~= digits.take(n));
    } else {
        assert(digits.take(n) =~= digits);
    }
}

/// Parse a number: an optional plus sign and digits.
pub fn parse_number(text: &String) -> (value: Option<u64>)
    ensures
        value == parsed_number(text@),
{
    let chars = text.as_str();
    let len: usize = chars.unicode_len();
    let start: usize = if len > 0 && chars.get_char(0) == '+' {
        1
    } else {
        0
    };
    let ghost digits = text@.skip(start as int);
    assert(start == 0 ==> digits =~= text@);
    if start >= len {
        return None;
    }
    let mut value: u64 = 0;
    let mut i: usize = start;
    assert(digits.take(0) =~= Seq::empty());
    while i < len
        invariant
            start <= i <= len,
            start <= 1,
            chars@ == text@,
            len == text@.len(),
            digits == text@.skip(start as int),
            parsed_number(text@) == digits_number(digits),
            forall|k: int| 0 <= k < i - start ==> is_digit(#[trigger] digits[k]),
            value == number(digits.take(i - start)),
        decreases len - i,
    {
        let c = chars.get_char(i);
        assert(c == digits[i - start]);
        if !('0' <= c && c <= '9') {
            assert(!is_digit(digits[i - start]));
            return None;
        }
        let digit: u64 = c as u64 - '0' as u64;
        proof {
            assert(digits.take(i + 1 - start).drop_last() =~= digits.take(i - start));
            assert(digits.take(i + 1 - start).last() == c);
            lemma_number_grows(digits, i + 1 - start);
        }
        if value > (u64::MAX - digit) / 10 {
            assert(value * 10 + digit > u64::MAX);
            return None;
        }
        value = value * 10 + digit;
        i = i + 1;
    }
    assert(digits.take(i - start) =~= digits);
    Some(value)
}

/// Parse a shed mode.
pub fn parse_mode(text: &String) -> (mode: Option<ShedMode>)
    ensures
        mode == parsed_mode(text@),
{
    if *text == "drain".to_owned() {
        Some(ShedMode::Drain)
    } else if *text == "migrate".to_owned() {
        Some(ShedMode::Migrate)
    } else {
        None
    }
}

/// The arguments of a list.
pub open spec fn texts_view(args: Seq<String>) -> Seq<Seq<char>> {
    args.map_values(|a: String| a@)
}

/// Parse the command line, without the program's name. None asks for the usage
/// message.
pub fn parse_args(args: &Vec<String>) -> (arguments: Option<Arguments>)
    ensures
        match arguments {
            Some(arguments) => parsed_args(texts_view(args@)) == Some(arguments@),
            None => parsed_args(texts_view(args@)) is None,
        },
{
    let ghost texts = texts_view(args@);
    let ghost outcome = ArgumentsView::defaults().with_rest(texts, 0);
    let mut listen: Option<String> = None;
    let mut broker: Option<String> = None;
    let mut drain_timeout_secs: u64 = DEFAULT_DRAIN_TIMEOUT_SECS;
    let mut mode = ShedMode::Drain;
    let ghost mut state = ArgumentsView::defaults();
    let mut i: usize = 0;
    while i < args.len()
        invariant
            i <= args.len(),
            texts == texts_view(args@),
            outcome == ArgumentsView::defaults().with_rest(texts, 0),
            outcome == state.with_rest(texts, i as int),
            state.drain_timeout_secs == drain_timeout_secs,
            state.mode == mode,
            state.listen == match listen {
                Some(text) => Some(text@),
                None => None,
            },
            state.broker == match broker {
                Some(text) => Some(text@),
                None => None,
            },
        decreases args.len() - i,
    {
        if args.len() - i < 2 {
            return None;
        }
        let name = &args[i];
        let value = &args[i + 1];
        assert(texts[i as int] == name@);
        assert(texts[i + 1] == value@);
        if *name == "--listen".to_owned() {
            listen = Some(value.clone());
        } else if *name == "--broker".to_owned() {
            broker = Some(value.clone());
        } else if *name == "--drain-timeout-secs".to_owned() {
            match parse_number(value) {
                Some(secs) => {
                    drain_timeout_secs = secs;
                },
                None => return None,
            }
        } else if *name == "--mode".to_owned() {
            match parse_mode(value) {
                Some(parsed) => {
                    mode = parsed;
                },
                None => return None,
            }
        } else {
            return None;
        }
        proof {
            distinct_option_names();
            state = state.with_option(name@, value@)->0;
        }
        i = i + 2;
    }
    match (listen, broker) {
        (Some(listen), Some(broker)) => Some(
            Arguments { listen, broker, drain_timeout_secs, mode },
        ),
        _ => None,
    }
}

proof fn distinct_option_names()
    ensures
        "--listen"@ != "--broker"@,
        "--listen"@ != "--drain-timeout-secs"@,
        "--listen"@ != "--mode"@,
        "--broker"@ != "--drain-timeout-secs"@,
        "--broker"@ != "--mode"@,
        "--drain-timeout-secs"@ != "--mode"@,
{
    reveal_strlit("--listen");
    reveal_strlit("--broker");
    reveal_strlit("--drain-timeout-secs");
    reveal_strlit("--mode");
    assert("--listen"@[2] == 'l');
    assert("--broker"@[2] == 'b');
    assert("--drain-timeout-secs"@[2] == 'd');
    assert("--mode"@[2] == 'm');
}

/// Each option sets what it is named for, and nothing else; what is no option of the proxy,
/// and what has no such value, is not understood.
pub proof fn law_options_set_one_thing(state: ArgumentsView, name: Seq<char>, value: Seq<char>)
    ensures
        state.with_option("--listen"@, value) == Some(
            (ArgumentsView { listen: Some(value), ..state }),
        ),
        state.with_option("--broker"@, value) == Some(
            (ArgumentsView { broker: Some(value), ..state }),
        ),
        match parsed_number(value) {
            Some(secs) => state.with_option("--drain-timeout-secs"@, value) == Some(
                (ArgumentsView { drain_timeout_secs: secs, ..state }),
            ),
            None => state.with_option("--drain-timeout-secs"@, value) is None,
        },
        state.with_option("--mode"@, "drain"@) == Some(
            (ArgumentsView { mode: ShedMode::Drain, ..state }),
        ),
        state.with_option("--mode"@, "migrate"@) == Some(
            (ArgumentsView { mode: ShedMode::Migrate, ..state }),
        ),
        value != "drain"@ && value != "migrate"@ ==> state.with_option("--mode"@, value) is None,
        name != "--listen"@ && name != "--broker"@ && name != "--drain-timeout-secs"@ && name
            != "--mode"@ ==> state.with_option(name, value) is None,
{
    distinct_option_names();
    reveal_strlit("drain");
    reveal_strlit("migrate");
    assert("drain"@[0] == 'd' && "migrate"@[0] == 'm');
}

proof fn lemma_digits_pushed(digits: Seq<char>, c: char)
    ensures
        is_digit(c) && digits.len() > 0 ==> digits_number(digits.push(c)) == (match digits_number(
            digits,
        ) {
            Some(n) => if 10 * n + (c as nat - '0' as nat) <= u64::MAX {
                Some((10 * n + (c as nat - '0' as nat)) as u64)
            } else {
                None
            },
            None => None,
        }),
        !is_digit(c) ==> digits_number(digits.push(c)) is None,
{
    let more = digits.push(c);
    assert(more.drop_last() =~= digits);
    assert(more[digits.len() as int] == c);
    assert(forall|i: int| 0 <= i < digits.len() ==> #[trigger] more[i] == digits[i]);
    if is_digit(c) && digits.len() > 0 {
        if forall|i: int| 0 <= i < digits.len() ==> is_digit(#[trigger] digits[i]) {
            assert(forall|i: int| 0 <= i < more.len() ==> is_digit(#[trigger] more[i]));
            assert(number(more) == number(digits) * 10 + (c as nat - '0' as nat) as nat);
        } else {
            let i = choose|i: int| 0 <= i < digits.len() && !is_digit(#[trigger] digits[i]);
            assert(!is_digit(more[i]));
        }
    }
}

/// Numbers are decimal, with or without a plus sign in front: a digit stands for its value,
/// one more digit behind a number for ten times the number and its value, as long as the
/// result is a number of 64 bits. No text without digits, and none with anything else in it,
/// is a number.
pub proof fn law_numbers_are_decimal(text: Seq<char>, c: char)
    ensures
        parsed_number(Seq::empty()) is None && parsed_number(seq!['+']) is None,
        is_digit(c) <==> '0' <= c <= '9',
        is_digit(c) ==> parsed_number(seq![c]) == Some((c as nat - '0' as nat) as u64),
        is_digit(c) ==> parsed_number(seq!['+', c]) == parsed_number(seq![c]),
        text.len() > 0 && text[0] != '+' ==> parsed_number(seq!['+'] + text) == parsed_number(text),
        text.len() > 0 && text[0] == '+' ==> parsed_number(seq!['+'] + text) is None,
        !is_digit(c) && (c != '+' || text.len() > 0) ==> parsed_number(text.push(c)) is None,
        is_digit(c) && text.len() > 0 && text != seq!['+'] ==> parsed_number(text.push(c)) == (
        match parsed_number(text) {
            Some(n) => if 10 * n + (c as nat - '0' as nat) <= u64::MAX {
                Some((10 * n + (c as nat - '0' as nat)) as u64)
            } else {
                None
            },
            None => None,
        }),
{
    let one = seq![c];
    assert(one.drop_last() =~= Seq::empty());
    assert(number(one.drop_last()) == 0);
    assert(one[0] == c);
    assert(forall|i: int| 0 <= i < one.len() ==> #[trigger] one[i] == c);
    assert(seq!['+'].skip(1) =~= Seq::empty());
    assert(seq!['+', c].skip(1) =~= one);
    assert((seq!['+'] + text).skip(1) =~= text);
    if text.len() > 0 && text[0] == '+' {
        assert(!is_digit(text[0]));
    }
    if text.len() > 0 && text[0] == '+' {
        assert(text.push(c).skip(1) =~= text.skip(1).push(c));
        lemma_digits_pushed(text.skip(1), c);
        if text.len() == 1 {
            assert(text =~= seq!['+']);
        }
    } else {
        lemma_digits_pushed(text, c);
        if text.len() == 0 {
            assert(text.push(c) =~= one);
        }
    }
}

proof fn lemma_with_rest_appended(
    state: ArgumentsView,
    args: Seq<Seq<char>>,
    name: Seq<char>,
    value: Seq<char>,
    from: int,
)
    requires
        0 <= from <= args.len(),
        (args.len() - from) % 2 == 0,
    ensures
        state.with_rest(args.push(name).push(value), from) == (match state.with_rest(args, from) {
            Some(next) => next.with_option(name, value),
            None => None,
        }),
        state.with_rest(args.push(name), from) is None,
    decreases args.len() - from,
{
    let one = args.push(name);
    let more = one.push(value);
    if from < args.len() {
        assert(more[from] == args[from] && more[from + 1] == args[from + 1]);
        assert(one[from] == args[from] && one[from + 1] == args[from + 1]);
        match state.with_option(args[from], args[from + 1]) {
            Some(next) => {
                lemma_with_rest_appended(next, args, name, value, from + 2);
            },
            None => {},
        }
    } else {
        assert(more[from] == name && more[from + 1] == value);
        match state.with_option(name, value) {
            Some(next) => {
                assert(next.with_rest(more, from + 2) == Some(next));
            },
            None => {},
        }
    }
}

/// A command line is read from left to right, an option and its value at a time, so that
/// what comes last counts; an option without its value is not understood.
pub proof fn law_command_lines_are_pairs(args: Seq<Seq<char>>, name: Seq<char>, value: Seq<char>)
    requires
        args.len() % 2 == 0,
    ensures
        ({
            let start = ArgumentsView::defaults();
            &&& start.with_rest(Seq::empty(), 0) == Some(start)
            &&& start.with_rest(args.push(name).push(value), 0) == (match start.with_rest(args, 0) {
                Some(parsed) => parsed.with_option(name, value),
                None => None,
            })
            &&& start.with_rest(args.push(name), 0) is None
            &&& parsed_args(args.push(name)) is None
        }),
{
    lemma_with_rest_appended(ArgumentsView::defaults(), args, name, value, 0);
}

/// A command line has to say where to listen and where the broker is; of what else it leaves
/// unsaid, sessions drain, and for a minute.
pub proof fn law_what_command_lines_must_say(args: Seq<Seq<char>>)
    ensures
        ArgumentsView::defaults().listen is None && ArgumentsView::defaults().broker is None,
        ArgumentsView::defaults().drain_timeout_secs == 60,
        ArgumentsView::defaults().mode == ShedMode::Drain,
        match ArgumentsView::defaults().with_rest(args, 0) {
            Some(parsed) => if parsed.listen is None || parsed.broker is None {
                parsed_args(args) is None
            } else {
                parsed_args(args) == Some(parsed)
            },
            None => parsed_args(args) is None,
        },
{
}

} // verus!
