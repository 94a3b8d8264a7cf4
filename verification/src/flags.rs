//! The command line flags shared by the `list` and `render` verbs.
use vstd::prelude::*;
use vstd::string::*;

use crate::text::{parse_u64, parse_u64_spec, str_eq};

verus! {

/// Parsed flags shared by the subcommands.
pub struct Flags {
    pub device: Option<String>,
    pub pin: Option<String>,
    pub store: Option<String>,
    pub timeout: Option<u64>,
}

/// The flags as plain values.
#[verifier::ext_equal]
pub struct FlagsView {
    pub device: Option<Seq<char>>,
    pub pin: Option<Seq<char>>,
    pub store: Option<Seq<char>>,
    pub timeout: Option<u64>,
}

impl View for Flags {
    type V = FlagsView;

    open spec fn view(&self) -> FlagsView {
        FlagsView {
            device: self.device.deep_view(),
            pin: self.pin.deep_view(),
            store: self.store.deep_view(),
            timeout: self.timeout,
        }
    }
}

/// No flag given.
pub open spec fn no_flags() -> FlagsView {
    FlagsView { device: None, pin: None, store: None, timeout: None }
}

/// The error for a flag given as the last argument, without its value.
pub open spec fn missing_value_msg(name: Seq<char>) -> Seq<char> {
    "flag "@ + name + " needs a value"@
}

/// The error for a `--timeout` value that is not a whole number of seconds.
pub open spec fn bad_timeout_msg() -> Seq<char> {
    "--timeout must be whole seconds"@
}

/// The error for an argument that is no known flag.
pub open spec fn unknown_flag_msg(arg: Seq<char>) -> Seq<char> {
    "unknown flag "@ + arg
}

/// Reading `args` from position `i` on, with `acc` the flags read so far.
/// Each flag takes the next argument as its value, whatever it is; a flag
/// given twice keeps its last value; the first error stops the reading.
pub open spec fn parse_from(args: Seq<Seq<char>>, i: int, acc: FlagsView) -> Result<
    FlagsView,
    Seq<char>,
>
    decreases args.len() - i,
{
    if i < 0 || i >= args.len() {
        Ok(acc)
    } else {
        let a = args[i];
        if a == "--device"@ || a == "-d"@ {
            if i + 1 < args.len() {
                parse_from(args, i + 2, FlagsView { device: Some(args[i + 1]), ..acc })
            } else {
                Err(missing_value_msg("--device"@))
            }
        } else if a == "--pin"@ {
            if i + 1 < args.len() {
                parse_from(args, i + 2, FlagsView { pin: Some(args[i + 1]), ..acc })
            } else {
                Err(missing_value_msg("--pin"@))
            }
        } else if a == "--store"@ {
            if i + 1 < args.len() {
                parse_from(args, i + 2, FlagsView { store: Some(args[i + 1]), ..acc })
            } else {
                Err(missing_value_msg("--store"@))
            }
        } else if a == "--timeout"@ {
            if i + 1 < args.len() {
                match parse_u64_spec(args[i + 1]) {
                    Some(t) => parse_from(args, i + 2, FlagsView { timeout: Some(t), ..acc }),
                    None => Err(bad_timeout_msg()),
                }
            } else {
                Err(missing_value_msg("--timeout"@))
            }
        } else {
            Err(unknown_flag_msg(a))
        }
    }
}

/// What parsing the whole argument list gives.
pub open spec fn parse_flags_spec(args: Seq<Seq<char>>) -> Result<FlagsView, Seq<char>> {
    parse_from(args, 0, no_flags())
}

/// A `Result` of flags or a message, as plain values.
pub open spec fn parsed_view(r: Result<Flags, String>) -> Result<FlagsView, Seq<char>> {
    match r {
        Ok(f) => Ok(f@),
        Err(e) => Err(e@),
    }
}

/// The seconds to wait for discovery: the `--timeout` value, else five.
pub open spec fn timeout_spec(f: FlagsView) -> u64 {
    match f.timeout {
        Some(t) => t,
        None => 5,
    }
}

fn missing_value(name: &str) -> (e: String)
    ensures
        e@ == missing_value_msg(name@),
{
    let mut e = String::from_str("flag ");
    e.append(name);
    e.append(" needs a value");
    e
}

/// Parses the flags that follow a verb: `--device`/`-d`, `--pin`, `--store`
/// and `--timeout`, each followed by its value.
pub fn parse_flags(args: &Vec<String>) -> (r: Result<Flags, String>)
    ensures
        parsed_view(r) == parse_flags_spec(args.deep_view()),
{
    let ghost av = args.deep_view();
    let mut f = Flags { device: None, pin: None, store: None, timeout: None };
    assert(f@ =~= no_flags());
    let n = args.len();
    let mut i: usize = 0;
    while i < n
        invariant
            n == args@.len(),
            av == args.deep_view(),
            i <= n,
            parse_from(av, i as int, f@) == parse_flags_spec(av),
        decreases n - i,
    {
        let arg = args[i].as_str();
        assert(arg@ == av[i as int]);
        if str_eq(arg, "--device") || str_eq(arg, "-d") {
            if i + 1 < n {
                f.device = Some(args[i + 1].clone());
                assert(f@.device == Some(av[i + 1]));
                i = i + 2;
            } else {
                return Err(missing_value("--device"));
            }
        } else if str_eq(arg, "--pin") {
            if i + 1 < n {
                f.pin = Some(args[i + 1].clone());
                assert(f@.pin == Some(av[i + 1]));
                i = i + 2;
            } else {
                return Err(missing_value("--pin"));
            }
        } else if str_eq(arg, "--store") {
            if i + 1 < n {
                f.store = Some(args[i + 1].clone());
                assert(f@.store == Some(av[i + 1]));
                i = i + 2;
            } else {
                return Err(missing_value("--store"));
            }
        } else if str_eq(arg, "--timeout") {
            if i + 1 < n {
                let value = args[i + 1].as_str();
                assert(value@ == av[i + 1]);
                match parse_u64(value) {
                    Some(t) => {
                        f.timeout = Some(t);
                        i = i + 2;
                    },
                    None => {
                        return Err(String::from_str("--timeout must be whole seconds"));
                    },
                }
            } else {
                return Err(missing_value("--timeout"));
            }
        } else {
            let mut e = String::from_str("unknown flag ");
            e.append(arg);
            return Err(e);
        }
    }
    Ok(f)
}

/// The seconds to wait for discovery: the `--timeout` value, else five.
pub fn timeout_secs(flags: &Flags) -> (t: u64)
    ensures
        t == timeout_spec(flags@),
{
    match flags.timeout {
        Some(t) => t,
        None => 5,
    }
}

/// Reading arguments that start at the end of `a` in `a + b` is reading `b`.
proof fn lemma_parse_shift(a: Seq<Seq<char>>, b: Seq<Seq<char>>, j: int, acc: FlagsView)
    requires
        0 <= j,
    ensures
        parse_from(a + b, a.len() + j, acc) == parse_from(b, j, acc),
    decreases b.len() - j,
{
    let ab = a + b;
    if j < b.len() {
        assert(ab[a.len() + j] == b[j]);
        if j + 1 < b.len() {
            assert(ab[a.len() + j + 1] == b[j + 1]);
        }
        if j + 1 < b.len() {
            lemma_parse_shift(a, b, j + 2, FlagsView { device: Some(b[j + 1]), ..acc });
            lemma_parse_shift(a, b, j + 2, FlagsView { pin: Some(b[j + 1]), ..acc });
            lemma_parse_shift(a, b, j + 2, FlagsView { store: Some(b[j + 1]), ..acc });
            if let Some(t) = parse_u64_spec(b[j + 1]) {
                lemma_parse_shift(a, b, j + 2, FlagsView { timeout: Some(t), ..acc });
            }
        }
    }
}

proof fn lemma_parse_concat(a: Seq<Seq<char>>, b: Seq<Seq<char>>, i: int, acc: FlagsView)
    requires
        0 <= i <= a.len(),
        parse_from(a, i, acc) is Ok,
    ensures
        parse_from(a + b, i, acc) == parse_from(b, 0, parse_from(a, i, acc)->Ok_0),
    decreases a.len() - i,
{
    let ab = a + b;
    if i == a.len() {
        lemma_parse_shift(a, b, 0, acc);
    } else {
        assert(ab[i] == a[i]);
        assert(i + 1 < a.len());
        assert(ab[i + 1] == a[i + 1]);
        let v = a[i + 1];
        if a[i] == "--device"@ || a[i] == "-d"@ {
            lemma_parse_concat(a, b, i + 2, FlagsView { device: Some(v), ..acc });
        } else if a[i] == "--pin"@ {
            lemma_parse_concat(a, b, i + 2, FlagsView { pin: Some(v), ..acc });
        } else if a[i] == "--store"@ {
            lemma_parse_concat(a, b, i + 2, FlagsView { store: Some(v), ..acc });
        } else {
            let t = parse_u64_spec(v)->Some_0;
            lemma_parse_concat(a, b, i + 2, FlagsView { timeout: Some(t), ..acc });
        }
    }
}

/// Arguments read one after the other: when `a` reads without error, `a`
/// followed by `b` reads as `b` read on top of what `a` gave.
pub proof fn lemma_parse_flags_concat(a: Seq<Seq<char>>, b: Seq<Seq<char>>)
    requires
        parse_flags_spec(a) is Ok,
    ensures
        parse_flags_spec(a + b) == parse_from(b, 0, parse_flags_spec(a)->Ok_0),
{
    lemma_parse_concat(a, b, 0, no_flags());
}

/// A flag given again overrides what it was given before; the other flags
/// keep their values.
pub proof fn lemma_last_flag_wins(args: Seq<Seq<char>>, v: Seq<char>)
    requires
        parse_flags_spec(args) is Ok,
    ensures
        ({
            let f = parse_flags_spec(args)->Ok_0;
            &&& parse_flags_spec(args + seq!["--device"@, v]) == Ok::<FlagsView, Seq<char>>(
                FlagsView { device: Some(v), ..f },
            )
            &&& parse_flags_spec(args + seq!["-d"@, v]) == Ok::<FlagsView, Seq<char>>(FlagsView { device: Some(v), ..f })
            &&& parse_flags_spec(args + seq!["--pin"@, v]) == Ok::<FlagsView, Seq<char>>(FlagsView { pin: Some(v), ..f })
            &&& parse_flags_spec(args + seq!["--store"@, v]) == Ok::<FlagsView, Seq<char>>(
                FlagsView { store: Some(v), ..f },
            )
            &&& parse_u64_spec(v) matches Some(t) ==> parse_flags_spec(
                args + seq!["--timeout"@, v],
            ) == Ok::<FlagsView, Seq<char>>(FlagsView { timeout: Some(t), ..f })
        }),
{
    let f = parse_flags_spec(args)->Ok_0;
    reveal_strlit("--device");
    reveal_strlit("-d");
    reveal_strlit("--pin");
    reveal_strlit("--store");
    reveal_strlit("--timeout");
    lemma_parse_flags_concat(args, seq!["--device"@, v]);
    lemma_parse_flags_concat(args, seq!["-d"@, v]);
    lemma_parse_flags_concat(args, seq!["--pin"@, v]);
    lemma_parse_flags_concat(args, seq!["--store"@, v]);
    lemma_parse_flags_concat(args, seq!["--timeout"@, v]);
    reveal_with_fuel(parse_from, 2);
    assert("--pin"@.len() == 5 && "--store"@.len() == 7 && "--timeout"@.len() == 9);
    assert("--device"@.len() == 8 && "-d"@.len() == 2);
    assert("--pin"@ != "--device"@ && "--pin"@ != "-d"@);
    assert("--store"@ != "--device"@ && "--store"@ != "-d"@ && "--store"@ != "--pin"@);
    assert("--timeout"@ != "--device"@ && "--timeout"@ != "-d"@ && "--timeout"@ != "--pin"@
        && "--timeout"@ != "--store"@);
    assert(parse_from(seq!["--device"@, v], 0, f) == Ok::<FlagsView, Seq<char>>(FlagsView { device: Some(v), ..f }));
    assert(parse_from(seq!["-d"@, v], 0, f) == Ok::<FlagsView, Seq<char>>(FlagsView { device: Some(v), ..f }));
    assert(parse_from(seq!["--pin"@, v], 0, f) == Ok::<FlagsView, Seq<char>>(FlagsView { pin: Some(v), ..f }));
    assert(parse_from(seq!["--store"@, v], 0, f) == Ok::<FlagsView, Seq<char>>(FlagsView { store: Some(v), ..f }));
}

/// Discovery waits exactly the `--timeout` given, whatever its size, and
/// five seconds without one.
pub proof fn lemma_timeout(f: FlagsView)
    ensures
        f.timeout matches Some(t) ==> timeout_spec(f) == t,
        f.timeout is None ==> timeout_spec(f) == 5,
{
}

/// A lone `--timeout` with a value that reads as a number gives that many
/// seconds of discovery.
pub proof fn lemma_timeout_flag(v: Seq<char>)
    requires
        parse_u64_spec(v) is Some,
    ensures
        parse_flags_spec(seq!["--timeout"@, v]) matches Ok(f) && timeout_spec(f) == parse_u64_spec(
            v,
        )->Some_0,
{
    lemma_last_flag_wins(Seq::empty(), v);
    assert(Seq::<Seq<char>>::empty() + seq!["--timeout"@, v] =~= seq!["--timeout"@, v]);
}

/// The errors, word for word: a flag given last, without its value, names
/// the flag (`--device` also for `-d`); a `--timeout` value that does not
/// read as a number; and an argument that is no flag, quoted as given.
pub proof fn lemma_flag_errors(a: Seq<char>, v: Seq<char>)
    ensures
        parse_flags_spec(seq!["--device"@]) == Err::<FlagsView, Seq<char>>(
            "flag "@ + "--device"@ + " needs a value"@,
        ),
        parse_flags_spec(seq!["-d"@]) == Err::<FlagsView, Seq<char>>(
            "flag "@ + "--device"@ + " needs a value"@,
        ),
        parse_flags_spec(seq!["--pin"@]) == Err::<FlagsView, Seq<char>>(
            "flag "@ + "--pin"@ + " needs a value"@,
        ),
        parse_flags_spec(seq!["--store"@]) == Err::<FlagsView, Seq<char>>(
            "flag "@ + "--store"@ + " needs a value"@,
        ),
        parse_flags_spec(seq!["--timeout"@]) == Err::<FlagsView, Seq<char>>(
            "flag "@ + "--timeout"@ + " needs a value"@,
        ),
        parse_u64_spec(v) is None ==> parse_flags_spec(seq!["--timeout"@, v]) == Err::<
            FlagsView,
            Seq<char>,
        >("--timeout must be whole seconds"@),
        a != "--device"@ && a != "-d"@ && a != "--pin"@ && a != "--store"@ && a != "--timeout"@
            ==> parse_flags_spec(seq![a, v]) == Err::<FlagsView, Seq<char>>("unknown flag "@ + a),
{
    reveal_strlit("--device");
    reveal_strlit("-d");
    reveal_strlit("--pin");
    reveal_strlit("--store");
    reveal_strlit("--timeout");
    assert("--pin"@.len() == 5 && "--store"@.len() == 7 && "--timeout"@.len() == 9);
    assert("--device"@.len() == 8 && "-d"@.len() == 2);
    assert("--pin"@ != "--device"@ && "--pin"@ != "-d"@);
    assert("--store"@ != "--device"@ && "--store"@ != "-d"@ && "--store"@ != "--pin"@);
    assert("--timeout"@ != "--device"@ && "--timeout"@ != "-d"@ && "--timeout"@ != "--pin"@
        && "--timeout"@ != "--store"@);
}

/// No arguments, no flags.
pub proof fn lemma_no_args()
    ensures
        parse_flags_spec(Seq::empty()) == Ok::<FlagsView, Seq<char>>(
            FlagsView { device: None, pin: None, store: None, timeout: None },
        ),
{
}

} // verus!
