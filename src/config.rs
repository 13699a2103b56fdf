//! Run configuration and the command-line grammar that produces it.

use vstd::prelude::*;
use crate::text::{chars_of, extend_range, string_of, text_eq};

verus! {

/// What a run is asked to do.
#[derive(Debug, Clone, PartialEq, Eq)]
pub struct Config {
    /// The file that holds the header text.
    pub license_file: Option<String>,
    /// Path components that exclude a path when one equals any of them.
    pub excludes: Vec<String>,
    /// The roots of the walk.
    pub targets: Vec<String>,
    /// The worker count asked for, if any.
    pub jobs: Option<usize>,
}

/// The text of a configuration.
pub struct ConfigView {
    pub license_file: Option<Seq<char>>,
    pub excludes: Seq<Seq<char>>,
    pub targets: Seq<Seq<char>>,
    pub jobs: Option<usize>,
}

/// The texts of a list of strings.
pub open spec fn texts(v: Seq<String>) -> Seq<Seq<char>> {
    v.map_values(|s: String| s@)
}

impl View for Config {
    type V = ConfigView;

    open spec fn view(&self) -> ConfigView {
        ConfigView {
            license_file: match self.license_file {
                Some(f) => Some(f@),
                None => None,
            },
            excludes: texts(self.excludes@),
            targets: texts(self.targets@),
            jobs: self.jobs,
        }
    }
}

/// The value of a run of decimal digits.
pub open spec fn digits_value(s: Seq<char>) -> int
    decreases s.len(),
{
    if s.len() == 0 {
        0
    } else {
        digits_value(s.drop_last()) * 10 + (s.last() as int - '0' as int)
    }
}

/// Whether every character of `s` is an ASCII digit.
pub open spec fn all_digits(s: Seq<char>) -> bool {
    forall|i: int| 0 <= i < s.len() ==> '0' <= #[trigger] s[i] && s[i] <= '9'
}

/// The `usize` that `s` writes in decimal, with an optional leading `+`, as
/// `usize::from_str` reads it; `None` for anything else or a value too large.
pub open spec fn decimal_usize(s: Seq<char>) -> Option<usize> {
    let d = if s.len() > 0 && s[0] == '+' {
        s.drop_first()
    } else {
        s
    };
    if d.len() > 0 && all_digits(d) && digits_value(d) <= usize::MAX {
        Some(digits_value(d) as usize)
    } else {
        None
    }
}

/// Reads a decimal `usize`, as `usize::from_str` does.
pub fn parse_usize(s: &str) -> (r: Option<usize>)
    ensures
        r == decimal_usize(s@),
{
    let c = chars_of(s);
    let mut i: usize = 0;
    if c.len() > 0 && c[0] == '+' {
        i = 1;
    }
    let ghost d = c@.subrange(i as int, c.len() as int);
    assert(d =~= if s@.len() > 0 && s@[0] == '+' { s@.drop_first() } else { s@ });
    if i >= c.len() {
        return None;
    }
    let mut value: usize = 0;
    let mut k = i;
    while k < c.len()
        invariant
            i <= k <= c.len(),
            d == c@.subrange(i as int, c.len() as int),
            c@ == s@,
            d == if s@.len() > 0 && s@[0] == '+' { s@.drop_first() } else { s@ },
            all_digits(c@.subrange(i as int, k as int)),
            value as int == digits_value(c@.subrange(i as int, k as int)),
        decreases c.len() - k,
    {
        let ch = c[k];
        let ghost pre = c@.subrange(i as int, k as int);
        let ghost next = c@.subrange(i as int, k + 1);
        assert(next.drop_last() =~= pre);
        if ch < '0' || ch > '9' {
            assert(d[k - i] == ch);
            assert(!('0' <= d[k - i] && d[k - i] <= '9'));
            return None;
        }
        let digit = (ch as u32 - '0' as u32) as usize;
        assert(all_digits(next));
        assert(next.last() == ch);
        assert(digits_value(next) == value * 10 + digit);
        match value.checked_mul(10) {
            Some(t) => match t.checked_add(digit) {
                Some(v) => {
                    value = v;
                },
                None => {
                    proof {
                        if all_digits(d) {
                            assert(d.subrange(0, k + 1 - i) =~= next);
                            lemma_digits_grow(d, (k + 1 - i) as int);
                        }
                    }
                    return None;
                },
            },
            None => {
                proof {
                    if all_digits(d) {
                        assert(d.subrange(0, k + 1 - i) =~= next);
                        lemma_digits_grow(d, (k + 1 - i) as int);
                    }
                }
                return None;
            },
        }
        k = k + 1;
    }
    assert(d =~= c@.subrange(i as int, k as int));
    Some(value)
}

/// A run of digits is worth at least any of its leading parts.
pub proof fn lemma_digits_grow(d: Seq<char>, n: int)
    requires
        0 <= n <= d.len(),
        all_digits(d),
    ensures
        digits_value(d.subrange(0, n)) <= digits_value(d),
    decreases d.len(),
{
    if n < d.len() {
        let e = d.drop_last();
        assert(e.subrange(0, n) =~= d.subrange(0, n));
        assert(all_digits(e));
        lemma_digits_grow(e, n);
        lemma_digits_nonneg(e);
    }
    assert(d.subrange(0, d.len() as int) =~= d);
}

/// A run of digits has a value of at least 0.
pub proof fn lemma_digits_nonneg(d: Seq<char>)
    requires
        all_digits(d),
    ensures
        digits_value(d) >= 0,
    decreases d.len(),
{
    if d.len() > 0 {
        assert(all_digits(d.drop_last()));
        lemma_digits_nonneg(d.drop_last());
    }
}

/// A configuration with nothing set.
pub open spec fn empty_config() -> ConfigView {
    ConfigView { license_file: None, excludes: Seq::empty(), targets: Seq::empty(), jobs: None }
}

/// A configuration is usable once it names a header file and a target.
pub open spec fn validated(c: ConfigView) -> Result<ConfigView, Seq<char>> {
    if c.license_file is None {
        Err("Missing required argument: -f/--file"@)
    } else if c.targets.len() == 0 {
        Err("No target paths specified. Use '.' for current directory."@)
    } else {
        Ok(c)
    }
}

/// What the command line asks for.
#[derive(Debug, Clone, PartialEq, Eq)]
pub enum Command {
    /// Process files as configured.
    Run(Config),
    /// Show the usage text.
    Help,
}

/// The text of a command.
pub enum CommandView {
    Run(ConfigView),
    Help,
}

impl View for Command {
    type V = CommandView;

    open spec fn view(&self) -> CommandView {
        match self {
            Command::Run(c) => CommandView::Run(c@),
            Command::Help => CommandView::Help,
        }
    }
}

/// The command that the arguments from index `i` on make of `acc`.
pub open spec fn parse_from(args: Seq<Seq<char>>, i: int, acc: ConfigView) -> Result<
    CommandView,
    Seq<char>,
>
    decreases args.len() - i,
{
    if i < 0 || i >= args.len() {
        match validated(acc) {
            Ok(c) => Ok(CommandView::Run(c)),
            Err(e) => Err(e),
        }
    } else {
        let a = args[i];
        let has_value = i + 1 < args.len();
        if a == "-f"@ || a == "--file"@ {
            if has_value {
                parse_from(
                    args,
                    i + 2,
                    ConfigView {
                        license_file: Some(args[i + 1]),
                        excludes: acc.excludes,
                        targets: acc.targets,
                        jobs: acc.jobs,
                    },
                )
            } else {
                Err("-f/--file requires an argument"@)
            }
        } else if a == "-e"@ || a == "--exclude"@ {
            if has_value {
                parse_from(
                    args,
                    i + 2,
                    ConfigView {
                        license_file: acc.license_file,
                        excludes: acc.excludes.push(args[i + 1]),
                        targets: acc.targets,
                        jobs: acc.jobs,
                    },
                )
            } else {
                Err("-e/--exclude requires an argument"@)
            }
        } else if a == "-h"@ || a == "--help"@ {
            Ok(CommandView::Help)
        } else if a == "-j"@ || a == "--jobs"@ {
            if has_value {
                match decimal_usize(args[i + 1]) {
                    Some(n) if n > 0 => parse_from(
                        args,
                        i + 2,
                        ConfigView {
                            license_file: acc.license_file,
                            excludes: acc.excludes,
                            targets: acc.targets,
                            jobs: Some(n),
                        },
                    ),
                    _ => Err("Invalid number for -j"@),
                }
            } else {
                Err("-j requires an argument"@)
            }
        } else if a.len() > 0 && a[0] == '-' {
            Err("Unknown option: "@ + a)
        } else {
            parse_from(
                args,
                i + 1,
                ConfigView {
                    license_file: acc.license_file,
                    excludes: acc.excludes,
                    targets: acc.targets.push(a),
                    jobs: acc.jobs,
                },
            )
        }
    }
}

/// The command that a whole argument list (program name left out) asks
/// for: usage help when it is empty.
pub open spec fn parse_command(args: Seq<Seq<char>>) -> Result<CommandView, Seq<char>> {
    if args.len() == 0 {
        Ok(CommandView::Help)
    } else {
        parse_from(args, 0, empty_config())
    }
}

impl Config {
    /// Accepts the configuration when it names a header file and at least
    /// one target; otherwise says which is missing.
    pub fn validate(self) -> (r: Result<Config, String>)
        ensures
            match r {
                Ok(c) => c == self && validated(self@) == Ok::<ConfigView, Seq<char>>(self@),
                Err(e) => validated(self@) == Err::<ConfigView, Seq<char>>(e@),
            },
    {
        if self.license_file.is_none() {
            return Err("Missing required argument: -f/--file".to_owned());
        }
        if self.targets.len() == 0 {
            return Err("No target paths specified. Use '.' for current directory.".to_owned());
        }
        Ok(self)
    }
}

/// The message for an unknown option.
fn unknown_option(a: &str) -> (r: String)
    ensures
        r@ == "Unknown option: "@ + a@,
{
    let head = chars_of("Unknown option: ");
    let tail = chars_of(a);
    let mut buf: Vec<char> = Vec::new();
    extend_range(&mut buf, &head, 0, head.len());
    extend_range(&mut buf, &tail, 0, tail.len());
    assert(head@.subrange(0, head.len() as int) =~= head@);
    assert(tail@.subrange(0, tail.len() as int) =~= tail@);
    string_of(&buf)
}

/// Reads the command line (program name left out) into a command.
pub fn parse_args(args: &Vec<String>) -> (r: Result<Command, String>)
    ensures
        match r {
            Ok(c) => parse_command(texts(args@)) == Ok::<CommandView, Seq<char>>(c@),
            Err(e) => parse_command(texts(args@)) == Err::<CommandView, Seq<char>>(e@),
        },
{
    let ghost all = texts(args@);
    if args.len() == 0 {
        return Ok(Command::Help);
    }
    let mut config = Config { license_file: None, excludes: Vec::new(), targets: Vec::new(), jobs: None };
    assert(config@.excludes =~= Seq::<Seq<char>>::empty());
    assert(config@.targets =~= Seq::<Seq<char>>::empty());
    let n = args.len();
    let mut i: usize = 0;
    while i < n
        invariant
            n == args.len(),
            n > 0,
            i <= n,
            all == texts(args@),
            parse_command(all) == parse_from(all, i as int, config@),
        decreases n - i,
    {
        let a = args[i].as_str();
        let has_value = i + 1 < n;
        if text_eq(a, "-f") || text_eq(a, "--file") {
            if !has_value {
                return Err("-f/--file requires an argument".to_owned());
            }
            config.license_file = Some(args[i + 1].clone());
            i = i + 2;
        } else if text_eq(a, "-e") || text_eq(a, "--exclude") {
            if !has_value {
                return Err("-e/--exclude requires an argument".to_owned());
            }
            let ghost before = config.excludes@;
            config.excludes.push(args[i + 1].clone());
            assert(texts(config.excludes@) =~= texts(before).push(all[i + 1]));
            i = i + 2;
        } else if text_eq(a, "-h") || text_eq(a, "--help") {
            return Ok(Command::Help);
        } else if text_eq(a, "-j") || text_eq(a, "--jobs") {
            if !has_value {
                return Err("-j requires an argument".to_owned());
            }
            match parse_usize(args[i + 1].as_str()) {
                Some(v) if v > 0 => {
                    config.jobs = Some(v);
                },
                _ => {
                    return Err("Invalid number for -j".to_owned());
                },
            }
            i = i + 2;
        } else {
            let c = chars_of(a);
            if c.len() > 0 && c[0] == '-' {
                return Err(unknown_option(a));
            }
            let ghost before = config.targets@;
            config.targets.push(args[i].clone());
            assert(texts(config.targets@) =~= texts(before).push(all[i as int]));
            i = i + 1;
        }
    }
    match config.validate() {
        Ok(c) => Ok(Command::Run(c)),
        Err(e) => Err(e),
    }
}

} // verus!
