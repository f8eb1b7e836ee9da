//! The command line: `--key value`, `--key=value`, flags without a value, and
//! positionals.
use vstd::prelude::*;
use vstd::string::*;

use crate::control::viz::{VizConfig, VIZ_RATE_HZ};
use crate::double::{double, Double};
use crate::text::{debug_text, quoted, same_text, views};

verus! {

/// What was given on the command line.
#[derive(Debug, Clone)]
pub struct Cli {
    pub positionals: Vec<String>,
    /// Names and values; no name occurs twice.
    pub flags: Vec<(String, String)>,
}

/// A [`Cli`] as sequences: the positionals, and the flags by name.
pub ghost struct Line {
    pub positionals: Seq<Seq<char>>,
    pub flags: Map<Seq<char>, Seq<char>>,
}

/// The flags that take no value. Any other takes the next token.
pub open spec fn takes_no_value(name: Seq<char>) -> bool {
    name == "help"@ || name == "allow-no-sbus"@ || name == "skip-zero"@ || name == "viz"@ || name
        == "realtime"@ || name == "plain"@ || name == "forever"@
}

fn is_bool_flag(name: &str) -> (r: bool)
    ensures
        r == takes_no_value(name@),
{
    same_text(name, "help") || same_text(name, "allow-no-sbus") || same_text(name, "skip-zero")
        || same_text(name, "viz") || same_text(name, "realtime") || same_text(name, "plain")
        || same_text(name, "forever")
}

/// Whether a token names a flag.
pub open spec fn is_flag(arg: Seq<char>) -> bool {
    arg.len() >= 2 && arg[0] == '-' && arg[1] == '-'
}

/// Whether the first equals sign of a text stands at a place.
pub open spec fn first_equals(s: Seq<char>, i: int) -> bool {
    &&& 0 <= i < s.len()
    &&& s[i] == '='
    &&& forall|j: int| 0 <= j < i ==> s[j] != '='
}

/// The place of the first equals sign.
pub open spec fn equals_at(s: Seq<char>) -> Option<int> {
    if exists|i: int| first_equals(s, i) {
        Some(choose|i: int| first_equals(s, i))
    } else {
        None
    }
}

impl Line {
    pub open spec fn empty() -> Line {
        Line { positionals: Seq::empty(), flags: Map::empty() }
    }

    pub open spec fn with_flag(self, name: Seq<char>, value: Seq<char>) -> Line {
        Line { flags: self.flags.insert(name, value), ..self }
    }

    pub open spec fn with_positional(self, arg: Seq<char>) -> Line {
        Line { positionals: self.positionals.push(arg), ..self }
    }

    /// The line after the given tokens.
    pub open spec fn after(self, args: Seq<Seq<char>>) -> Line
        decreases args.len(),
    {
        if args.len() == 0 {
            self
        } else {
            let arg = args[0];
            let rest = args.skip(1);
            if !is_flag(arg) {
                if arg == "-h"@ {
                    self.with_flag("help"@, "true"@).after(rest)
                } else {
                    self.with_positional(arg).after(rest)
                }
            } else {
                let name = arg.skip(2);
                match equals_at(name) {
                    Some(i) => self.with_flag(name.take(i), name.skip(i + 1)).after(rest),
                    None => if takes_no_value(name) {
                        self.with_flag(name, "true"@).after(rest)
                    } else if rest.len() == 0 {
                        self.with_flag(name, Seq::empty())
                    } else {
                        self.with_flag(name, rest[0]).after(rest.skip(1))
                    },
                }
            }
        }
    }

    /// The value of a flag; an empty one counts as none.
    pub open spec fn value(self, key: Seq<char>) -> Option<Seq<char>> {
        if self.flags.dom().contains(key) && self.flags[key].len() > 0 {
            Some(self.flags[key])
        } else {
            None
        }
    }

    /// Whether a flag is set, and not to `false`.
    pub open spec fn is_set(self, key: Seq<char>) -> bool {
        self.flags.dom().contains(key) && self.flags[key] != "false"@
    }

    /// The command; the harmless one if none was given.
    pub open spec fn command(self) -> Seq<char> {
        if self.positionals.len() > 0 { self.positionals[0] } else { "check"@ }
    }
}

/// The flags by name.
pub open spec fn flag_map(flags: Seq<(String, String)>) -> Map<Seq<char>, Seq<char>>
    decreases flags.len(),
{
    if flags.len() == 0 {
        Map::empty()
    } else {
        flag_map(flags.drop_last()).insert(flags.last().0@, flags.last().1@)
    }
}

/// Whether no name occurs twice.
pub open spec fn names_differ(flags: Seq<(String, String)>) -> bool {
    forall|i: int, j: int|
        0 <= i < j < flags.len() ==> (#[trigger] flags[i]).0@ != (#[trigger] flags[j]).0@
}

proof fn lemma_flag_map(flags: Seq<(String, String)>)
    requires
        names_differ(flags),
    ensures
        forall|k: int|
            0 <= k < flags.len() ==> flag_map(flags).dom().contains((#[trigger] flags[k]).0@)
                && flag_map(flags)[flags[k].0@] == flags[k].1@,
        forall|name: Seq<char>| #[trigger]
            flag_map(flags).dom().contains(name) ==> exists|k: int|
                0 <= k < flags.len() && (#[trigger] flags[k]).0@ == name,
    decreases flags.len(),
{
    if flags.len() > 0 {
        let front = flags.drop_last();
        assert forall|i: int, j: int| 0 <= i < j < front.len() implies (#[trigger] front[i]).0@ != (
        #[trigger] front[j]).0@ by {
            assert(front[i] == flags[i] && front[j] == flags[j]);
        }
        lemma_flag_map(front);
        assert forall|k: int| 0 <= k < flags.len() implies flag_map(flags).dom().contains(
            (#[trigger] flags[k]).0@,
        ) && flag_map(flags)[flags[k].0@] == flags[k].1@ by {
            if k < front.len() {
                assert(front[k] == flags[k]);
                assert(flags[k].0@ != flags[flags.len() - 1].0@);
            }
        }
        assert forall|name: Seq<char>| #[trigger] flag_map(flags).dom().contains(name) implies exists|
            k: int,
        |
            0 <= k < flags.len() && (#[trigger] flags[k]).0@ == name by {
            if name == flags.last().0@ {
                assert(flags[flags.len() - 1].0@ == name);
            } else {
                assert(flag_map(front).dom().contains(name));
                let k = choose|k: int| 0 <= k < front.len() && (#[trigger] front[k]).0@ == name;
                assert(flags[k].0@ == name);
            }
        }
    }
}

/// Replacing the value at a place replaces it in the map.
proof fn lemma_replaced(flags: Seq<(String, String)>, changed: Seq<(String, String)>, k: int)
    requires
        names_differ(flags),
        0 <= k < flags.len(),
        changed.len() == flags.len(),
        forall|i: int| 0 <= i < flags.len() ==> (#[trigger] changed[i]).0@ == flags[i].0@,
        forall|i: int| 0 <= i < flags.len() && i != k ==> (#[trigger] changed[i]) == flags[i],
    ensures
        names_differ(changed),
        flag_map(changed) == flag_map(flags).insert(flags[k].0@, changed[k].1@),
{
    assert forall|i: int, j: int| 0 <= i < j < changed.len() implies (#[trigger] changed[i]).0@ != (
    #[trigger] changed[j]).0@ by {
        assert(flags[i].0@ != flags[j].0@);
    }
    lemma_flag_map(flags);
    lemma_flag_map(changed);
    let want = flag_map(flags).insert(flags[k].0@, changed[k].1@);
    let got = flag_map(changed);
    assert forall|name: Seq<char>| got.dom().contains(name) == want.dom().contains(name) by {
        if got.dom().contains(name) {
            let i = choose|i: int| 0 <= i < changed.len() && (#[trigger] changed[i]).0@ == name;
            assert(flags[i].0@ == name);
        }
        if want.dom().contains(name) {
            if name == flags[k].0@ {
                assert(changed[k].0@ == name);
            } else {
                let i = choose|i: int| 0 <= i < flags.len() && (#[trigger] flags[i]).0@ == name;
                assert(changed[i].0@ == name);
            }
        }
    }
    assert forall|name: Seq<char>| got.dom().contains(name) implies got[name] == want[name] by {
        let i = choose|i: int| 0 <= i < changed.len() && (#[trigger] changed[i]).0@ == name;
        assert(flags[i].0@ == name);
        if i != k {
            assert(flags[i].0@ != flags[k].0@) by {
                if i < k {
                    assert(flags[i].0@ != flags[k].0@);
                } else {
                    assert(flags[k].0@ != flags[i].0@);
                }
            }
        }
    }
    assert(got =~= want);
}

impl Cli {
    /// What was given.
    pub open spec fn view(self) -> Line {
        Line { positionals: views(self.positionals@), flags: flag_map(self.flags@) }
    }

    /// No flag is kept twice.
    pub open spec fn wf(self) -> bool {
        names_differ(self.flags@)
    }

    /// Reads the arguments, without the program's name. A flag given twice keeps
    /// its last value.
    pub fn parse(args: Vec<String>) -> (r: Cli)
        ensures
            r@ == Line::empty().after(views(args@)),
            r.wf(),
    {
        let mut cli = Cli { positionals: Vec::new(), flags: Vec::new() };
        let mut i: usize = 0;
        proof {
            assert(views(cli.positionals@) =~= Seq::<Seq<char>>::empty());
            assert(views(args@).skip(0) =~= views(args@));
        }
        while i < args.len()
            invariant
                i <= args.len(),
                cli.wf(),
                Line::empty().after(views(args@)) == cli@.after(views(args@).skip(i as int)),
            decreases args.len() - i,
        {
            let ghost tokens = views(args@).skip(i as int);
            let ghost line = cli@;
            proof {
                assert(tokens[0] == args@[i as int]@);
                assert(tokens.skip(1) =~= views(args@).skip(i + 1));
                if i + 1 < args.len() {
                    assert(tokens.skip(1)[0] == args@[i + 1]@);
                    assert(tokens.skip(1).skip(1) =~= views(args@).skip(i + 2));
                }
            }
            let arg = args[i].as_str();
            let length: usize = arg.unicode_len();
            if !(length >= 2 && arg.get_char(0) == '-' && arg.get_char(1) == '-') {
                if same_text(arg, "-h") {
                    cli.put("help", "true");
                } else {
                    let ghost before = cli.positionals@;
                    cli.positionals.push(arg.to_owned());
                    proof {
                        assert(views(cli.positionals@) =~= views(before).push(arg@));
                        assert(cli@ == line.with_positional(arg@));
                    }
                }
                i = i + 1;
                continue;
            }
            let name = arg.substring_char(2, length);
            proof {
                assert(name@ =~= arg@.skip(2));
            }
            match find_equals(name) {
                Some(at) => {
                    let key = name.substring_char(0, at);
                    let value = name.substring_char(at + 1, name.unicode_len());
                    proof {
                        assert(key@ =~= name@.take(at as int));
                        assert(value@ =~= name@.skip(at + 1));
                    }
                    cli.put(key, value);
                    i = i + 1;
                },
                None => {
                    if is_bool_flag(name) {
                        cli.put(name, "true");
                        i = i + 1;
                    } else if i + 1 < args.len() {
                        cli.put(name, args[i + 1].as_str());
                        i = i + 2;
                    } else {
                        let nothing = String::new();
                        cli.put(name, nothing.as_str());
                        i = i + 1;
                        proof {
                            assert(views(args@).skip(i as int) =~= Seq::<Seq<char>>::empty());
                        }
                    }
                },
            }
        }
        proof {
            assert(views(args@).skip(args.len() as int) =~= Seq::<Seq<char>>::empty());
        }
        cli
    }

    fn put(&mut self, key: &str, value: &str)
        requires
            old(self).wf(),
        ensures
            final(self).wf(),
            final(self)@ == old(self)@.with_flag(key@, value@),
    {
        let ghost before = self.flags@;
        let mut i: usize = 0;
        while i < self.flags.len()
            invariant
                i <= self.flags.len(),
                self.flags@ == before,
                self.positionals == old(self).positionals,
                before == old(self).flags@,
                names_differ(before),
                forall|j: int| 0 <= j < i ==> (#[trigger] before[j]).0@ != key@,
            decreases self.flags.len() - i,
        {
            if same_text(self.flags[i].0.as_str(), key) {
                self.flags.set(i, (key.to_owned(), value.to_owned()));
                proof {
                    lemma_replaced(before, self.flags@, i as int);
                }
                return;
            }
            i = i + 1;
        }
        self.flags.push((key.to_owned(), value.to_owned()));
        proof {
            assert(self.flags@.drop_last() =~= before);
            assert forall|a: int, b: int| 0 <= a < b < self.flags@.len() implies (
            #[trigger] self.flags@[a]).0@ != (#[trigger] self.flags@[b]).0@ by {
                if b < before.len() {
                    assert(before[a].0@ != before[b].0@);
                } else {
                    assert(before[a].0@ != key@);
                }
            }
        }
    }

    fn find(&self, key: &str) -> (r: Option<&str>)
        requires
            self.wf(),
        ensures
            match r {
                Some(value) => self@.flags.dom().contains(key@) && value@ == self@.flags[key@],
                None => !self@.flags.dom().contains(key@),
            },
    {
        proof {
            lemma_flag_map(self.flags@);
        }
        let mut i: usize = 0;
        while i < self.flags.len()
            invariant
                i <= self.flags.len(),
                forall|j: int| 0 <= j < i ==> (#[trigger] self.flags@[j]).0@ != key@,
                forall|k: int|
                    0 <= k < self.flags@.len() ==> flag_map(self.flags@).dom().contains(
                        (#[trigger] self.flags@[k]).0@,
                    ) && flag_map(self.flags@)[self.flags@[k].0@] == self.flags@[k].1@,
            decreases self.flags.len() - i,
        {
            if same_text(self.flags[i].0.as_str(), key) {
                return Some(self.flags[i].1.as_str());
            }
            i = i + 1;
        }
        None
    }

    /// The command; `check`, which moves nothing, if none was given.
    pub fn command(&self) -> (r: &str)
        ensures
            r@ == self@.command(),
    {
        if self.positionals.len() > 0 { self.positionals[0].as_str() } else { "check" }
    }

    /// The positional at a place, the command being the first.
    pub fn positional(&self, i: usize) -> (r: Option<&str>)
        ensures
            match r {
                Some(s) => i < self@.positionals.len() && s@ == self@.positionals[i as int],
                None => i >= self@.positionals.len(),
            },
    {
        if i < self.positionals.len() { Some(self.positionals[i].as_str()) } else { None }
    }

    pub fn wants_help(&self) -> (r: bool)
        requires
            self.wf(),
        ensures
            r == (self@.flags.dom().contains("help"@) || self@.positionals.contains("help"@)),
    {
        if self.find("help").is_some() {
            return true;
        }
        let mut i: usize = 0;
        while i < self.positionals.len()
            invariant
                i <= self.positionals.len(),
                forall|j: int| 0 <= j < i ==> views(self.positionals@)[j] != "help"@,
                !self@.flags.dom().contains("help"@),
            decreases self.positionals.len() - i,
        {
            if same_text(self.positionals[i].as_str(), "help") {
                assert(views(self.positionals@)[i as int] == "help"@);
                return true;
            }
            i = i + 1;
        }
        false
    }

    /// The value of an option; `None` if it is missing or empty.
    pub fn str(&self, key: &str) -> (r: Option<&str>)
        requires
            self.wf(),
        ensures
            match r {
                Some(value) => self@.value(key@) == Some(value@),
                None => self@.value(key@) is None,
            },
    {
        match self.find(key) {
            Some(value) => if value.unicode_len() > 0 { Some(value) } else { None },
            None => None,
        }
    }

    /// The value of an option as a count; `None` if it is missing or no count.
    pub fn usize(&self, key: &str) -> (r: Option<usize>)
        requires
            self.wf(),
        ensures
            match self@.value(key@) {
                Some(value) => match count_of(value) {
                    Some(n) => if n <= usize::MAX { r == Some(n as usize) } else { r is None },
                    None => r is None,
                },
                None => r is None,
            },
    {
        match self.str(key) {
            Some(value) => parse_count(value),
            None => None,
        }
    }

    /// Whether a flag is set, and not to `false`.
    pub fn flag(&self, key: &str) -> (r: bool)
        requires
            self.wf(),
        ensures
            r == self@.is_set(key@),
    {
        match self.find(key) {
            Some(value) => !same_text(value, "false"),
            None => false,
        }
    }
}

fn find_equals(s: &str) -> (r: Option<usize>)
    ensures
        match r {
            Some(at) => equals_at(s@) == Some(at as int) && at < s@.len(),
            None => equals_at(s@) is None,
        },
{
    let length: usize = s.unicode_len();
    let mut i: usize = 0;
    while i < length
        invariant
            i <= length,
            length == s@.len(),
            forall|j: int| 0 <= j < i ==> s@[j] != '=',
        decreases length - i,
    {
        if s.get_char(i) == '=' {
            proof {
                assert(first_equals(s@, i as int));
                let k = choose|k: int| first_equals(s@, k);
                if k < i {
                    assert(s@[k] != '=');
                }
                if k > i {
                    assert(s@[i as int] != '=');
                }
            }
            return Some(i);
        }
        i = i + 1;
    }
    None
}

/// The value of a decimal digit.
pub open spec fn digit_value(c: char) -> Option<nat> {
    if c == '0' {
        Some(0)
    } else if c == '1' {
        Some(1)
    } else if c == '2' {
        Some(2)
    } else if c == '3' {
        Some(3)
    } else if c == '4' {
        Some(4)
    } else if c == '5' {
        Some(5)
    } else if c == '6' {
        Some(6)
    } else if c == '7' {
        Some(7)
    } else if c == '8' {
        Some(8)
    } else if c == '9' {
        Some(9)
    } else {
        None
    }
}

fn digit_of(c: char) -> (r: Option<usize>)
    ensures
        match digit_value(c) {
            Some(d) => r == Some(d as usize) && d < 10,
            None => r is None,
        },
{
    if c == '0' {
        Some(0)
    } else if c == '1' {
        Some(1)
    } else if c == '2' {
        Some(2)
    } else if c == '3' {
        Some(3)
    } else if c == '4' {
        Some(4)
    } else if c == '5' {
        Some(5)
    } else if c == '6' {
        Some(6)
    } else if c == '7' {
        Some(7)
    } else if c == '8' {
        Some(8)
    } else if c == '9' {
        Some(9)
    } else {
        None
    }
}

/// The number that a run of digits writes; `None` where one is no digit.
pub open spec fn digits_value(s: Seq<char>) -> Option<nat>
    decreases s.len(),
{
    if s.len() == 0 {
        Some(0)
    } else {
        match (digits_value(s.drop_last()), digit_value(s.last())) {
            (Some(n), Some(d)) => Some(10 * n + d),
            _ => None,
        }
    }
}

/// The count that a text writes: digits, with a plus sign at most.
pub open spec fn count_of(s: Seq<char>) -> Option<nat> {
    let digits = if s.len() > 0 && s[0] == '+' { s.skip(1) } else { s };
    if digits.len() == 0 { None } else { digits_value(digits) }
}

/// A longer run of digits writes no smaller number.
proof fn lemma_digits_grow(s: Seq<char>, i: int)
    requires
        0 <= i <= s.len(),
        digits_value(s) is Some,
    ensures
        digits_value(s.take(i)) is Some,
        digits_value(s.take(i))->Some_0 <= digits_value(s)->Some_0,
    decreases s.len() - i,
{
    if i < s.len() {
        lemma_digits_grow(s, i + 1);
        assert(s.take(i + 1).drop_last() =~= s.take(i));
    } else {
        assert(s.take(i) =~= s);
    }
}

/// A count in decimal, as far as a `usize` goes.
pub fn parse_count(s: &str) -> (r: Option<usize>)
    ensures
        match count_of(s@) {
            Some(n) => if n <= usize::MAX { r == Some(n as usize) } else { r is None },
            None => r is None,
        },
{
    let length: usize = s.unicode_len();
    let start: usize = if length > 0 && s.get_char(0) == '+' { 1 } else { 0 };
    let ghost digits = s@.skip(start as int);
    proof {
        assert(s@.skip(0) =~= s@);
    }
    if start == length {
        return None;
    }
    let mut n: usize = 0;
    let mut i: usize = start;
    proof {
        assert(digits.take(0) =~= Seq::<char>::empty());
    }
    while i < length
        invariant
            start <= i <= length,
            length == s@.len(),
            digits == s@.skip(start as int),
            count_of(s@) == digits_value(digits),
            digits_value(digits.take(i - start)) == Some(n as nat),
        decreases length - i,
    {
        let ghost next = digits.take(i - start + 1);
        proof {
            assert(next.drop_last() =~= digits.take(i - start));
            assert(next.last() == s@[i as int]);
            if digits_value(digits) is Some {
                lemma_digits_grow(digits, i - start + 1);
            }
        }
        let d: usize = match digit_of(s.get_char(i)) {
            Some(d) => d,
            None => return None,
        };
        let tenfold: usize = match n.checked_mul(10) {
            Some(t) => t,
            None => return None,
        };
        n = match tenfold.checked_add(d) {
            Some(t) => t,
            None => return None,
        };
        i = i + 1;
    }
    proof {
        assert(digits.take(digits.len() as int) =~= digits);
    }
    Some(n)
}

/// What the program is asked to do.
#[derive(Debug, Clone, Copy, PartialEq, Eq, Structural)]
pub enum Command {
    /// List the ports.
    Ports,
    /// Write the default configuration.
    Config,
    /// Check configuration and model.
    Check,
    /// Play a gait without the robot.
    Dump,
    /// Calibrate.
    Calib,
    Imu,
    Sbus,
    Legs,
    /// The control loop.
    Run,
}

impl Command {
    /// The command of the given name.
    pub open spec fn named(name: Seq<char>) -> Option<Command> {
        if name == "ports"@ {
            Some(Command::Ports)
        } else if name == "config"@ {
            Some(Command::Config)
        } else if name == "check"@ {
            Some(Command::Check)
        } else if name == "dump"@ {
            Some(Command::Dump)
        } else if name == "calib"@ {
            Some(Command::Calib)
        } else if name == "imu"@ {
            Some(Command::Imu)
        } else if name == "sbus"@ {
            Some(Command::Sbus)
        } else if name == "legs"@ {
            Some(Command::Legs)
        } else if name == "run"@ {
            Some(Command::Run)
        } else {
            None
        }
    }

    /// Whether the configuration is read first.
    pub fn needs_config(self) -> (r: bool)
        ensures
            r == !(self is Ports || self is Config),
    {
        match self {
            Command::Ports => false,
            Command::Config => false,
            _ => true,
        }
    }
}

/// What an unknown command is told; its name comes in quotes.
pub open spec fn unknown_command_text(name: Seq<char>) -> Seq<char> {
    "未知のコマンド "@ + name + "。`namiashi --help` を見てください"@
}

/// The error of an unknown command, whose name comes in quotes.
pub fn unknown_command(name: &str) -> (r: String)
    ensures
        r@ == unknown_command_text(name@),
{
    "未知のコマンド ".to_owned().concat(name).concat("。`namiashi --help` を見てください")
}

/// The command to carry out.
pub fn dispatch(cli: &Cli) -> (r: Result<Command, String>)
    ensures
        match (Command::named(cli@.command()), r) {
            (Some(command), _) => r == Ok::<Command, String>(command),
            (None, Err(e)) => e@ == unknown_command_text(debug_text(cli@.command())),
            (None, Ok(_)) => false,
        },
{
    let name = cli.command();
    if same_text(name, "ports") {
        Ok(Command::Ports)
    } else if same_text(name, "config") {
        Ok(Command::Config)
    } else if same_text(name, "check") {
        Ok(Command::Check)
    } else if same_text(name, "dump") {
        Ok(Command::Dump)
    } else if same_text(name, "calib") {
        Ok(Command::Calib)
    } else if same_text(name, "imu") {
        Ok(Command::Imu)
    } else if same_text(name, "sbus") {
        Ok(Command::Sbus)
    } else if same_text(name, "legs") {
        Ok(Command::Legs)
    } else if same_text(name, "run") {
        Ok(Command::Run)
    } else {
        Err(unknown_command(quoted(name).as_str()))
    }
}

/// How long an observation lasts (s): `secs` where it was given, else `default`.
/// `--forever`, or no positive time, means until it is stopped.
pub fn secs_or_forever(cli: &Cli, secs: Option<Double>, default: Double) -> (r: Option<Double>)
    requires
        cli.wf(),
    ensures
        ({
            let span = match secs {
                Some(s) => s,
                None => default,
            };
            r == if cli@.is_set("forever"@) || span.at_most(double(0)) { None } else { Some(span) }
        }),
{
    let span = match secs {
        Some(s) => s,
        None => default,
    };
    if cli.flag("forever") || span.at_most(double(0)) { None } else { Some(span) }
}

/// The live view that the command line asks for; `rate_hz` is the value of
/// `--viz-rate`, where it is a number.
pub fn viz_config(cli: &Cli, rate_hz: Option<Double>) -> (r: VizConfig)
    requires
        cli.wf(),
    ensures
        r.enabled == cli@.is_set("viz"@),
        r.key_planned@ == (match cli@.value("viz-key"@) {
            Some(key) => key,
            None => "go2/gait/planned"@,
        }),
        r.key_measured@ == (match cli@.value("viz-key-measured"@) {
            Some(key) => key,
            None => "go2/gait/measured"@,
        }),
        r.rate_hz == (match rate_hz {
            Some(rate) => rate,
            None => double(VIZ_RATE_HZ),
        }),
        match (r.endpoint, cli@.value("viz-endpoint"@)) {
            (Some(endpoint), Some(value)) => endpoint@ == value,
            (None, None) => true,
            _ => false,
        },
{
    let usual = VizConfig::default();
    let key_planned = match cli.str("viz-key") {
        Some(key) => key.to_owned(),
        None => usual.key_planned,
    };
    let key_measured = match cli.str("viz-key-measured") {
        Some(key) => key.to_owned(),
        None => usual.key_measured,
    };
    let rate = match rate_hz {
        Some(rate) => rate,
        None => usual.rate_hz,
    };
    let endpoint = match cli.str("viz-endpoint") {
        Some(value) => Some(value.to_owned()),
        None => None,
    };
    VizConfig { enabled: cli.flag("viz"), key_planned, key_measured, rate_hz: rate, endpoint }
}

/// Without arguments the program does what moves nothing.
pub proof fn law_no_arguments_move_nothing()
    ensures
        Line::empty().after(Seq::empty()).command() == "check"@,
{
}

/// An option has the same value in both spellings, whatever was read before it and
/// whatever stands behind.
pub proof fn law_both_spellings_agree(
    line: Line,
    name: Seq<char>,
    value: Seq<char>,
    behind: Seq<Seq<char>>,
)
    requires
        !takes_no_value(name),
        equals_at(name) is None,
    ensures
        line.after(seq!["--"@ + name, value] + behind) == line.after(
            seq!["--"@ + name + "="@ + value] + behind,
        ),
        line.after(seq!["--"@ + name, value] + behind) == line.with_flag(name, value).after(behind),
{
    reveal_strlit("--");
    reveal_strlit("=");
    let arg = "--"@ + name;
    let spaced = seq![arg, value] + behind;
    assert(is_flag(arg));
    assert(arg.skip(2) =~= name);
    assert(spaced[0] == arg);
    assert(spaced.skip(1)[0] == value);
    assert(spaced.skip(1).skip(1) =~= behind);
    let joint = "--"@ + name + "="@ + value;
    let joined = seq![joint] + behind;
    assert(joined[0] == joint);
    assert(is_flag(joint));
    let rest = joint.skip(2);
    assert(rest =~= name + "="@ + value);
    let n = name.len() as int;
    assert forall|j: int| 0 <= j < n implies rest[j] != '=' by {
        assert(rest[j] == name[j]);
        if name[j] == '=' {
            lemma_some_equals(name, j);
        }
    }
    assert(first_equals(rest, n));
    let k = choose|k: int| first_equals(rest, k);
    assert(k == n);
    assert(rest.take(n) =~= name);
    assert(rest.skip(n + 1) =~= value);
    assert(joined.skip(1) =~= behind);
}

/// A flag of presence never takes the argument behind it, whatever that is.
pub proof fn law_a_presence_flag_takes_no_argument(
    line: Line,
    name: Seq<char>,
    behind: Seq<Seq<char>>,
)
    requires
        takes_no_value(name),
    ensures
        line.after(seq!["--"@ + name] + behind) == line.with_flag(name, "true"@).after(behind),
{
    reveal_strlit("--");
    let arg = "--"@ + name;
    let args = seq![arg] + behind;
    assert(args[0] == arg);
    assert(is_flag(arg));
    assert(arg.skip(2) =~= name);
    assert(args.skip(1) =~= behind);
    lemma_presence_flags_are_plain(name);
}

proof fn lemma_presence_flags_are_plain(name: Seq<char>)
    requires
        takes_no_value(name),
    ensures
        equals_at(name) is None,
{
    reveal_strlit("help");
    reveal_strlit("allow-no-sbus");
    reveal_strlit("skip-zero");
    reveal_strlit("viz");
    reveal_strlit("realtime");
    reveal_strlit("plain");
    reveal_strlit("forever");
    assert forall|i: int| 0 <= i < name.len() implies name[i] != '=' by {}
    assert forall|i: int| !first_equals(name, i) by {}
}

/// Where there is an equals sign, there is a first one.
proof fn lemma_some_equals(s: Seq<char>, j: int)
    requires
        0 <= j < s.len(),
        s[j] == '=',
    ensures
        equals_at(s) is Some,
    decreases j,
{
    if exists|i: int| 0 <= i < j && s[i] == '=' {
        let i = choose|i: int| 0 <= i < j && s[i] == '=';
        lemma_some_equals(s, i);
    } else {
        assert(first_equals(s, j));
    }
}

} // verus!
