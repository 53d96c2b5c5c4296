//! The command line of the sink.

use vstd::prelude::*;

use crate::numbers::{dec, law_numbers_read_back, parse_number, read_number};
use crate::text::{same, texts};

verus! {

pub const DEFAULT_NODE_NAME: &'static str = "localdesktop-aaudio-sink";

pub const DEFAULT_RATE: u32 = 48000;

pub const DEFAULT_CHANNELS: u32 = 2;

pub const DEFAULT_BUFFER_MS: u32 = 120;

/// How the sink is called.
pub const USAGE: &'static str =
    "Usage: localdesktop-pipewire-aaudio-sink [--node-name NAME] [--rate HZ] [--channels N] [--buffer-ms MS]";

/// What the sink is asked to do.
pub struct Args {
    pub node_name: String,
    pub rate: u32,
    pub channels: u32,
    pub buffer_ms: u32,
}

/// Arguments over views.
pub struct ArgsView {
    pub node_name: Seq<char>,
    pub rate: u32,
    pub channels: u32,
    pub buffer_ms: u32,
}

impl View for Args {
    type V = ArgsView;

    open spec fn view(&self) -> ArgsView {
        ArgsView {
            node_name: self.node_name@,
            rate: self.rate,
            channels: self.channels,
            buffer_ms: self.buffer_ms,
        }
    }
}

/// What a command line asks for.
pub enum Parsed<A> {
    Run(A),
    Help,
}

/// The arguments before any was read.
pub open spec fn default_args() -> ArgsView {
    ArgsView {
        node_name: DEFAULT_NODE_NAME@,
        rate: DEFAULT_RATE,
        channels: DEFAULT_CHANNELS,
        buffer_ms: DEFAULT_BUFFER_MS,
    }
}

/// A number that is not zero.
pub open spec fn positive(raw: Seq<char>) -> Option<nat> {
    match read_number(raw, u32::MAX as nat) {
        Some(n) => if n == 0 {
            None
        } else {
            Some(n)
        },
        None => None,
    }
}

/// What is said of a value that is not a positive number.
pub open spec fn invalid_value(name: Seq<char>, raw: Seq<char>) -> Seq<char> {
    "invalid value for "@ + name + ": "@ + raw
}

/// The arguments after one option with its value, or what is wrong with it.
pub open spec fn with_option(a: ArgsView, name: Seq<char>, raw: Seq<char>) -> Result<
    ArgsView,
    Seq<char>,
> {
    if name == "--node-name"@ {
        Ok(ArgsView { node_name: raw, ..a })
    } else if name == "--rate"@ || name == "--channels"@ || name == "--buffer-ms"@ {
        match positive(raw) {
            Some(n) => if name == "--rate"@ {
                Ok(ArgsView { rate: n as u32, ..a })
            } else if name == "--channels"@ {
                Ok(ArgsView { channels: n as u32, ..a })
            } else {
                Ok(ArgsView { buffer_ms: n as u32, ..a })
            },
            None => Err(invalid_value(name, raw)),
        }
    } else {
        Err("unknown argument "@ + name)
    }
}

/// What the rest of a command line asks for, read from option `i` on.
pub open spec fn parsed(argv: Seq<Seq<char>>, i: int, a: ArgsView) -> Result<
    Parsed<ArgsView>,
    Seq<char>,
>
    decreases argv.len() + 1 - i,
{
    if i < 0 || i >= argv.len() {
        Ok(Parsed::Run(a))
    } else if argv[i] == "--help"@ || argv[i] == "-h"@ {
        Ok(Parsed::Help)
    } else if i + 1 >= argv.len() {
        Err(argv[i] + " needs a value"@)
    } else {
        match with_option(a, argv[i], argv[i + 1]) {
            Ok(next) => parsed(argv, i + 2, next),
            Err(e) => Err(e),
        }
    }
}

/// Reads a positive number.
fn read_positive(raw: &str) -> (r: Option<u32>)
    ensures
        match r {
            Some(n) => positive(raw@) == Some(n as nat),
            None => positive(raw@) is None,
        },
{
    match parse_number(raw, u32::MAX as u64) {
        Some(n) => if n == 0 {
            None
        } else {
            Some(n as u32)
        },
        None => None,
    }
}

/// Takes up one option with its value.
fn read_option(a: Args, name: &str, raw: &str) -> (r: Result<Args, String>)
    ensures
        match r {
            Ok(next) => with_option(a@, name@, raw@) == Ok::<_, Seq<char>>(next@),
            Err(e) => with_option(a@, name@, raw@) == Err::<ArgsView, _>(e@),
        },
{
    if same(name, "--node-name") {
        return Ok(Args { node_name: raw.to_owned(), ..a });
    }
    if same(name, "--rate") || same(name, "--channels") || same(name, "--buffer-ms") {
        match read_positive(raw) {
            Some(n) => {
                if same(name, "--rate") {
                    Ok(Args { rate: n, ..a })
                } else if same(name, "--channels") {
                    Ok(Args { channels: n, ..a })
                } else {
                    Ok(Args { buffer_ms: n, ..a })
                }
            },
            None => {
                let mut e = "invalid value for ".to_owned();
                e.append(name);
                e.append(": ");
                e.append(raw);
                Err(e)
            },
        }
    } else {
        let mut e = "unknown argument ".to_owned();
        e.append(name);
        Err(e)
    }
}

/// What a parsed command line is over views.
pub open spec fn parsed_view(p: Parsed<Args>) -> Parsed<ArgsView> {
    match p {
        Parsed::Run(a) => Parsed::Run(a@),
        Parsed::Help => Parsed::Help,
    }
}

/// Parses the command line of the sink.
pub fn parse_args(argv: &[String]) -> (r: Result<Parsed<Args>, String>)
    ensures
        match r {
            Ok(p) => parsed(texts(argv@), 0, default_args()) == Ok::<_, Seq<char>>(parsed_view(p)),
            Err(e) => parsed(texts(argv@), 0, default_args()) == Err::<Parsed<ArgsView>, _>(e@),
        },
{
    let mut args = Args {
        node_name: DEFAULT_NODE_NAME.to_owned(),
        rate: DEFAULT_RATE,
        channels: DEFAULT_CHANNELS,
        buffer_ms: DEFAULT_BUFFER_MS,
    };
    let ghost all = texts(argv@);
    let mut i: usize = 0;
    while i < argv.len()
        invariant
            all == texts(argv@),
            parsed(all, i as int, args@) == parsed(all, 0, default_args()),
        decreases argv.len() - i,
    {
        assert(all[i as int] == argv@[i as int]@);
        if same(argv[i].as_str(), "--help") || same(argv[i].as_str(), "-h") {
            return Ok(Parsed::Help);
        }
        if argv.len() - i < 2 {
            let mut e = argv[i].clone();
            e.append(" needs a value");
            return Err(e);
        }
        assert(all[i + 1] == argv@[i + 1]@);
        match read_option(args, argv[i].as_str(), argv[i + 1].as_str()) {
            Ok(next) => {
                args = next;
            },
            Err(e) => {
                return Err(e);
            },
        }
        if argv.len() - i == 2 {
            assert(parsed(all, i + 2, args@) == Ok::<_, Seq<char>>(Parsed::Run(args@)));
            return Ok(Parsed::Run(args));
        }
        i = i + 2;
    }
    Ok(Parsed::Run(args))
}

/// Runs the sink, which needs a device of Android.
pub fn run(_args: Args) -> (r: Result<(), String>)
    ensures
        r is Err && r->Err_0@ == "pipewire_aaudio_sink only runs on Android"@,
{
    Err("pipewire_aaudio_sink only runs on Android".to_owned())
}

/// Every command line that runs the sink asks for a rate, channels and a buffer
/// that are not zero.
pub proof fn law_what_runs_is_positive(argv: Seq<Seq<char>>, i: int, a: ArgsView)
    requires
        a.rate > 0,
        a.channels > 0,
        a.buffer_ms > 0,
        parsed(argv, i, a) matches Ok(Parsed::Run(_)),
    ensures
        parsed(argv, i, a) matches Ok(Parsed::Run(b)) && b.rate > 0 && b.channels > 0
            && b.buffer_ms > 0,
    decreases argv.len() + 1 - i,
{
    if 0 <= i < argv.len() {
        let next = with_option(a, argv[i], argv[i + 1])->Ok_0;
        law_what_runs_is_positive(argv, i + 2, next);
    }
}

/// Reading on from an option does not see what stands before it.
proof fn lemma_parsed_moves(head: Seq<Seq<char>>, argv: Seq<Seq<char>>, i: int, a: ArgsView)
    requires
        0 <= i,
    ensures
        parsed(head + argv, head.len() + i, a) == parsed(argv, i, a),
    decreases argv.len() + 1 - i,
{
    let all = head + argv;
    let j = head.len() + i;
    if i < argv.len() {
        assert(all[j] == argv[i]);
        if i + 1 < argv.len() {
            assert(all[j + 1] == argv[i + 1]);
            match with_option(a, argv[i], argv[i + 1]) {
                Ok(next) => {
                    lemma_parsed_moves(head, argv, i + 2, next);
                },
                Err(_) => {},
            }
        }
    }
}

/// A command line is read option by option, each with its value: what an option
/// sets holds for the rest, and the first that is wrong decides. Help is given
/// as soon as it is asked for. An option without a value is wrong.
pub proof fn law_options_are_read_in_pairs(
    a: ArgsView,
    name: Seq<char>,
    value: Seq<char>,
    rest: Seq<Seq<char>>,
)
    ensures
        name != "--help"@ && name != "-h"@ ==> parsed(seq![name, value] + rest, 0, a) == (
        match with_option(a, name, value) {
            Ok(next) => parsed(rest, 0, next),
            Err(e) => Err(e),
        }),
        name != "--help"@ && name != "-h"@ ==> parsed(seq![name], 0, a) == Err::<
            Parsed<ArgsView>,
            _,
        >(name + " needs a value"@),
        parsed(seq!["--help"@] + rest, 0, a) == Ok::<Parsed<ArgsView>, Seq<char>>(Parsed::Help),
        parsed(seq!["-h"@] + rest, 0, a) == Ok::<Parsed<ArgsView>, Seq<char>>(Parsed::Help),
        parsed(Seq::<Seq<char>>::empty(), 0, a) == Ok::<_, Seq<char>>(Parsed::Run(a)),
{
    let head = seq![name, value];
    let all = head + rest;
    assert(all[0] == name && all[1] == value);
    assert((seq!["--help"@] + rest)[0] == "--help"@);
    assert((seq!["-h"@] + rest)[0] == "-h"@);
    match with_option(a, name, value) {
        Ok(next) => {
            lemma_parsed_moves(head, rest, 0, next);
        },
        Err(_) => {},
    }
}

/// Each option sets its own value and leaves the others; numbers are written in
/// decimal, and zero is refused, as is anything that is no number. An option
/// that is not known is refused.
pub proof fn law_each_option_sets_its_value(a: ArgsView, raw: Seq<char>, n: u32)
    ensures
        with_option(a, "--node-name"@, raw) == Ok::<_, Seq<char>>(
            ArgsView { node_name: raw, ..a },
        ),
        n > 0 ==> with_option(a, "--rate"@, dec(n as nat)) == Ok::<_, Seq<char>>(
            ArgsView { rate: n, ..a },
        ),
        n > 0 ==> with_option(a, "--channels"@, dec(n as nat)) == Ok::<_, Seq<char>>(
            ArgsView { channels: n, ..a },
        ),
        n > 0 ==> with_option(a, "--buffer-ms"@, dec(n as nat)) == Ok::<_, Seq<char>>(
            ArgsView { buffer_ms: n, ..a },
        ),
        with_option(a, "--rate"@, dec(0)) == Err::<ArgsView, _>(
            "invalid value for "@ + "--rate"@ + ": "@ + dec(0),
        ),
        read_number(raw, u32::MAX as nat) is None ==> with_option(a, "--channels"@, raw) == Err::<
            ArgsView,
            _,
        >("invalid value for "@ + "--channels"@ + ": "@ + raw),
        raw != "--node-name"@ && raw != "--rate"@ && raw != "--channels"@ && raw != "--buffer-ms"@
            ==> with_option(a, raw, raw) == Err::<ArgsView, _>("unknown argument "@ + raw),
        default_args() == (ArgsView {
            node_name: "localdesktop-aaudio-sink"@,
            rate: 48000,
            channels: 2,
            buffer_ms: 120,
        }),
{
    reveal_strlit("--node-name");
    reveal_strlit("--rate");
    reveal_strlit("--channels");
    reveal_strlit("--buffer-ms");
    assert("--node-name"@.len() == 11 && "--rate"@.len() == 6 && "--channels"@.len() == 10);
    assert("--buffer-ms"@.len() == 11 && "--buffer-ms"@[2] == 'b' && "--node-name"@[2] == 'n');
    law_numbers_read_back(n as nat, u32::MAX as nat);
    law_numbers_read_back(0, u32::MAX as nat);
}

} // verus!
