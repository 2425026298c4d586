//! The arguments of the tools: flags with a value each.

use crate::bytes::{parse_decimal, text_equal};
use vstd::prelude::*;

verus! {

use crate::bytes::decimal;
use vstd::utf8::encode_utf8;

/// What a flag takes.
#[derive(Clone, Copy, Debug, PartialEq, Eq, Structural)]
pub enum ArgKind {
    /// Any text.
    Text,
    /// A number that is at most this.
    Number(u64),
    /// A text of a form that the caller knows.
    Form,
}

/// A flag of a tool.
#[derive(Clone, Copy, Debug)]
pub struct Flag {
    pub name: &'static str,
    pub kind: ArgKind,
    pub required: bool,
}

/// What stands next among the arguments of a tool.
#[derive(Clone, Copy, Debug, PartialEq, Eq, Structural)]
pub enum ArgStep {
    /// Nothing.
    Done,
    /// The tool is asked what it takes.
    Help,
    /// An argument that the tool does not know.
    Unknown,
    /// The flag with this index, without a value.
    Missing(usize),
    /// The flag with this index, with a value behind it.
    Value(usize),
}

/// Why arguments are not taken.
#[derive(Clone, Copy, Debug, PartialEq, Eq, Structural)]
pub enum ArgError {
    /// The tool is asked what it takes.
    Help,
    /// The argument at this place is not known.
    Unknown(usize),
    /// The flag with this index has no value.
    Missing(usize),
    /// The argument at this place is no value of its flag.
    Invalid(usize),
    /// The flag with this index is required.
    Required(usize),
}

/// The flag that an argument is, from index `from` on.
pub open spec fn flag_of(arg: Seq<char>, flags: Seq<Flag>, from: int) -> Option<int>
    decreases flags.len() - from,
{
    if from < 0 || from >= flags.len() {
        None
    } else if flags[from].name@ == arg {
        Some(from)
    } else {
        flag_of(arg, flags, from + 1)
    }
}

/// What stands at `at`: a flag with its value, or a call for help.
pub open spec fn step_at(args: Seq<String>, at: int, flags: Seq<Flag>) -> ArgStep {
    if at >= args.len() {
        ArgStep::Done
    } else {
        match flag_of(args[at]@, flags, 0) {
            Some(flag) => if at + 1 < args.len() {
                ArgStep::Value(flag as usize)
            } else {
                ArgStep::Missing(flag as usize)
            },
            None => if args[at]@ == "--help"@ || args[at]@ == "-h"@ {
                ArgStep::Help
            } else {
                ArgStep::Unknown
            },
        }
    }
}

proof fn lemma_flag(arg: Seq<char>, flags: Seq<Flag>, from: int)
    requires
        0 <= from,
    ensures
        flag_of(arg, flags, from) matches Some(flag) ==> from <= flag < flags.len(),
    decreases flags.len() - from,
{
    if from < flags.len() {
        lemma_flag(arg, flags, from + 1);
    }
}

/// What stands at `at` among the arguments.
pub fn next_arg(args: &[String], at: usize, flags: &[Flag]) -> (step: ArgStep)
    ensures
        step == step_at(args@, at as int, flags@),
{
    let len: usize = args.len();
    if at >= len {
        return ArgStep::Done;
    }
    let arg: &str = args[at].as_str();
    let mut i: usize = 0;
    while i < flags.len()
        invariant
            i <= flags.len(),
            at < len == args.len(),
            arg@ == args@[at as int]@,
            flag_of(arg@, flags@, 0) == flag_of(arg@, flags@, i as int),
        decreases flags.len() - i,
    {
        if text_equal(flags[i].name, arg) {
            return if len - at > 1 {
                ArgStep::Value(i)
            } else {
                ArgStep::Missing(i)
            };
        }
        i += 1;
    }
    if text_equal(arg, "--help") || text_equal(arg, "-h") {
        ArgStep::Help
    } else {
        ArgStep::Unknown
    }
}

/// The number that a text is, where it is at most `max`.
pub open spec fn number_in(text: Seq<char>, max: int) -> Option<nat> {
    match decimal(encode_utf8(text)) {
        Some(value) => if value <= max {
            Some(value)
        } else {
            None
        },
        None => None,
    }
}

/// The number that a value is, where it is at most `max`.
pub fn number_arg(text: &str, max: u64) -> (value: Option<u64>)
    ensures
        match number_in(text@, max as int) {
            Some(number) => value == Some(number as u64) && number <= max,
            None => value is None,
        },
{
    parse_decimal(text.as_bytes(), max)
}

/// A text is a value of a kind. `formed` says whether it has the form that the
/// caller knows.
pub open spec fn is_value(text: Seq<char>, kind: ArgKind, formed: bool) -> bool {
    match kind {
        ArgKind::Text => true,
        ArgKind::Number(max) => number_in(text, max as int) is Some,
        ArgKind::Form => formed,
    }
}

/// Where the last value of each flag stands, from `at` on; before it, they stood
/// at `found`.
pub open spec fn places(
    args: Seq<String>,
    formed: Seq<bool>,
    flags: Seq<Flag>,
    at: int,
    found: Seq<Option<usize>>,
) -> Result<Seq<Option<usize>>, ArgError>
    decreases args.len() - at,
{
    match step_at(args, at, flags) {
        ArgStep::Done => Ok(found),
        ArgStep::Help => Err(ArgError::Help),
        ArgStep::Unknown => Err(ArgError::Unknown(at as usize)),
        ArgStep::Missing(flag) => Err(ArgError::Missing(flag)),
        ArgStep::Value(flag) => if at >= args.len() {
            Ok(found)
        } else if is_value(args[at + 1]@, flags[flag as int].kind, formed[at + 1]) {
            places(args, formed, flags, at + 2, found.update(flag as int, Some((at + 1) as usize)))
        } else {
            Err(ArgError::Invalid((at + 1) as usize))
        },
    }
}

/// The first flag from `from` on that is required and has no value.
pub open spec fn first_unset(flags: Seq<Flag>, found: Seq<Option<usize>>, from: int) -> Option<int>
    decreases flags.len() - from,
{
    if from < 0 || from >= flags.len() {
        None
    } else if flags[from].required && found[from] is None {
        Some(from)
    } else {
        first_unset(flags, found, from + 1)
    }
}

/// What the arguments of a tool come to: where the last value of each flag
/// stands. The first argument that is wrong decides, and behind it the first
/// flag that is required and not set.
pub open spec fn arguments(args: Seq<String>, formed: Seq<bool>, flags: Seq<Flag>) -> Result<
    Seq<Option<usize>>,
    ArgError,
> {
    match places(args, formed, flags, 0, Seq::new(flags.len(), |i: int| None)) {
        Err(error) => Err(error),
        Ok(found) => match first_unset(flags, found, 0) {
            Some(flag) => Err(ArgError::Required(flag as usize)),
            None => Ok(found),
        },
    }
}

/// Takes the arguments of a tool apart. `formed` says of each argument whether
/// it has the form that the caller knows.
pub fn parse_args(args: &[String], formed: &[bool], flags: &[Flag]) -> (result: Result<
    Vec<Option<usize>>,
    ArgError,
>)
    requires
        formed@.len() == args@.len(),
    ensures
        match result {
            Ok(found) => arguments(args@, formed@, flags@) == Ok::<
                Seq<Option<usize>>,
                ArgError,
            >(found@),
            Err(error) => arguments(args@, formed@, flags@) == Err::<
                Seq<Option<usize>>,
                ArgError,
            >(error),
        },
{
    let count: usize = flags.len();
    let mut found: Vec<Option<usize>> = Vec::new();
    let mut i: usize = 0;
    while i < count
        invariant
            i <= count,
            found@ == Seq::new(i as nat, |j: int| None::<usize>),
        decreases count - i,
    {
        found.push(None);
        i += 1;
        proof {
            assert(found@ =~= Seq::new(i as nat, |j: int| None::<usize>));
        }
    }
    let mut at: usize = 0;
    while at < args.len()
        invariant
            at <= args@.len(),
            count == flags@.len() == found@.len(),
            formed@.len() == args@.len(),
            places(args@, formed@, flags@, 0, Seq::new(flags@.len(), |j: int| None::<usize>))
                == places(args@, formed@, flags@, at as int, found@),
        decreases args@.len() - at,
    {
        proof {
            lemma_flag(args@[at as int]@, flags@, 0);
        }
        match next_arg(args, at, flags) {
            ArgStep::Done | ArgStep::Help => return Err(ArgError::Help),
            ArgStep::Unknown => return Err(ArgError::Unknown(at)),
            ArgStep::Missing(flag) => return Err(ArgError::Missing(flag)),
            ArgStep::Value(flag) => {
                let fits: bool = match flags[flag].kind {
                    ArgKind::Text => true,
                    ArgKind::Number(max) => number_arg(args[at + 1].as_str(), max).is_some(),
                    ArgKind::Form => formed[at + 1],
                };
                if !fits {
                    return Err(ArgError::Invalid(at + 1));
                }
                found.set(flag, Some(at + 1));
                at += 2;
            },
        }
    }
    i = 0;
    while i < count
        invariant
            i <= count,
            count == flags@.len() == found@.len(),
            first_unset(flags@, found@, 0) == first_unset(flags@, found@, i as int),
            places(args@, formed@, flags@, 0, Seq::new(flags@.len(), |j: int| None::<usize>))
                == Ok::<Seq<Option<usize>>, ArgError>(found@),
        decreases count - i,
    {
        if flags[i].required && found[i].is_none() {
            return Err(ArgError::Required(i));
        }
        i += 1;
    }
    Ok(found)
}

/// The number at a place among the arguments, or `default` where there is none.
pub fn number_or(args: &[String], place: Option<usize>, max: u64, default: u64) -> (value: u64)
    ensures
        value == match place {
            Some(at) => if at < args@.len() {
                match number_in(args@[at as int]@, max as int) {
                    Some(number) => number as u64,
                    None => default,
                }
            } else {
                default
            },
            None => default,
        },
{
    match place {
        Some(at) => if at < args.len() {
            match number_arg(args[at].as_str(), max) {
                Some(number) => number,
                None => default,
            }
        } else {
            default
        },
        None => default,
    }
}

/// The place of the first argument that is `flag`.
pub open spec fn place_of(args: Seq<String>, flag: Seq<char>, from: int) -> Option<int>
    decreases args.len() - from,
{
    if from < 0 || from >= args.len() {
        None
    } else if args[from]@ == flag {
        Some(from)
    } else {
        place_of(args, flag, from + 1)
    }
}

/// The number behind the first `flag`, or `default` where there is none.
pub fn arg_usize(args: &[String], flag: &str, default: usize) -> (value: usize)
    ensures
        value == match place_of(args@, flag@, 0) {
            Some(at) => if at + 1 < args.len() {
                match number_in(args@[at + 1]@, usize::MAX as int) {
                    Some(number) => number as usize,
                    None => default,
                }
            } else {
                default
            },
            None => default,
        },
{
    let mut i: usize = 0;
    while i < args.len()
        invariant
            i <= args.len(),
            place_of(args@, flag@, 0) == place_of(args@, flag@, i as int),
        decreases args.len() - i,
    {
        if text_equal(args[i].as_str(), flag) {
            if i + 1 < args.len() {
                return match number_arg(args[i + 1].as_str(), usize::MAX as u64) {
                    Some(value) => value as usize,
                    None => default,
                };
            }
            return default;
        }
        i += 1;
    }
    default
}

/// What is found for each flag: the last place behind its name with a value of its
/// kind, among the places up to `end` that are taken in pairs.
pub open spec fn found_in(
    args: Seq<String>,
    formed: Seq<bool>,
    flags: Seq<Flag>,
    found: Seq<Option<usize>>,
    end: int,
) -> bool {
    &&& found.len() == flags.len()
    &&& forall|f: int|
        0 <= f < flags.len() ==> (#[trigger] found[f] matches Some(at) ==> {
            &&& 1 <= at < end
            &&& at % 2 == 1
            &&& args[at - 1]@ == flags[f].name@
            &&& is_value(args[at as int]@, flags[f].kind, formed[at as int])
            &&& forall|later: int|
                at < later < end && later % 2 == 1 ==> flag_of(
                    (#[trigger] args[later - 1])@,
                    flags,
                    0,
                ) != Some(f)
        })
    &&& forall|f: int|
        0 <= f < flags.len() && (#[trigger] found[f]) is None ==> forall|place: int|
            0 <= place < end && place % 2 == 0 ==> flag_of((#[trigger] args[place])@, flags, 0)
                != Some(f)
}

proof fn lemma_flag_found(arg: Seq<char>, flags: Seq<Flag>, from: int)
    requires
        0 <= from <= flags.len(),
    ensures
        match flag_of(arg, flags, from) {
            Some(f) => from <= f < flags.len() && flags[f].name@ == arg && forall|i: int|
                from <= i < f ==> (#[trigger] flags[i]).name@ != arg,
            None => forall|i: int| from <= i < flags.len() ==> (#[trigger] flags[i]).name@ != arg,
        },
    decreases flags.len() - from,
{
    if from < flags.len() && flags[from].name@ != arg {
        lemma_flag_found(arg, flags, from + 1);
    }
}

proof fn lemma_places(
    args: Seq<String>,
    formed: Seq<bool>,
    flags: Seq<Flag>,
    at: int,
    found: Seq<Option<usize>>,
)
    requires
        0 <= at <= args.len() <= usize::MAX,
        at % 2 == 0,
        flags.len() <= usize::MAX,
        found_in(args, formed, flags, found, at),
    ensures
        places(args, formed, flags, at, found) matches Ok(all) ==> found_in(
            args,
            formed,
            flags,
            all,
            args.len() as int,
        ) && args.len() % 2 == 0,
    decreases args.len() - at,
{
    if at < args.len() {
        lemma_flag_found(args[at]@, flags, 0);
        if let ArgStep::Value(flag) = step_at(args, at, flags) {
            if is_value(args[at + 1]@, flags[flag as int].kind, formed[at + 1]) {
                let next = found.update(flag as int, Some((at + 1) as usize));
                assert(found_in(args, formed, flags, next, at + 2)) by {
                    assert forall|f: int| 0 <= f < flags.len() implies (
                    #[trigger] next[f] matches Some(p) ==> {
                        &&& 1 <= p < at + 2
                        &&& p % 2 == 1
                        &&& args[p - 1]@ == flags[f].name@
                        &&& is_value(args[p as int]@, flags[f].kind, formed[p as int])
                        &&& forall|later: int|
                            p < later < at + 2 && later % 2 == 1 ==> flag_of(
                                (#[trigger] args[later - 1])@,
                                flags,
                                0,
                            ) != Some(f)
                    }) by {
                        if f != flag {
                            assert(next[f] == found[f]);
                        }
                    }
                    assert forall|f: int|
                        0 <= f < flags.len() && (#[trigger] next[f]) is None implies forall|
                        place: int,
                    |
                        0 <= place < at + 2 && place % 2 == 0 ==> flag_of(
                            (#[trigger] args[place])@,
                            flags,
                            0,
                        ) != Some(f) by {
                        assert(next[f] == found[f]);
                    }
                }
                lemma_places(args, formed, flags, at + 2, next);
            }
        }
    }
}

proof fn lemma_all_set(flags: Seq<Flag>, found: Seq<Option<usize>>, from: int)
    requires
        0 <= from <= flags.len(),
        first_unset(flags, found, from) is None,
    ensures
        forall|f: int|
            from <= f < flags.len() && (#[trigger] flags[f]).required ==> found[f] is Some,
    decreases flags.len() - from,
{
    if from < flags.len() {
        lemma_all_set(flags, found, from + 1);
    }
}

/// Arguments are taken in pairs of a flag and its value. What is found for a flag
/// stands right behind its name and is a value of its kind, the last of several;
/// every flag that is required is found.
pub proof fn law_values_stand_behind_their_flag(
    args: Seq<String>,
    formed: Seq<bool>,
    flags: Seq<Flag>,
)
    requires
        args.len() <= usize::MAX,
        flags.len() <= usize::MAX,
    ensures
        arguments(args, formed, flags) matches Ok(found) ==> {
            &&& args.len() % 2 == 0
            &&& found_in(args, formed, flags, found, args.len() as int)
            &&& forall|f: int|
                0 <= f < flags.len() && (#[trigger] flags[f]).required ==> found[f] is Some
        },
{
    let none = Seq::<Option<usize>>::new(flags.len(), |i: int| None);
    assert(found_in(args, formed, flags, none, 0));
    lemma_places(args, formed, flags, 0, none);
    if arguments(args, formed, flags) is Ok {
        lemma_all_set(flags, arguments(args, formed, flags)->Ok_0, 0);
    }
}

} // verus!
