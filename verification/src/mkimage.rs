//! `ue2-mkimage <image> <dir> [--size <N>[K|M|G]] [--label <NAME>] [--force]`: the argument and
//! size parsing of the tool that builds a raw disk image (an MBR with one FAT32-LBA partition)
//! from a host directory. Reading the arguments and building the image stay with the caller.

use vstd::prelude::*;

use crate::text::{digit, lemma_decimal_digits, chars_of, decimal, push_decimal, push_str, str_eq, string_of};

verus! {

/// The tool's usage line.
pub const USAGE: &'static str = "usage: ue2-mkimage <image> <dir> [--size <N>[K|M|G]] [--label <NAME>] [--force]";

/// A Unicode `White_Space` character, as `char::is_whitespace` and `str::trim` take it.
pub open spec fn is_white_space(c: char) -> bool {
    ||| '\t' <= c <= '\r'
    ||| c == ' '
    ||| c == '\u{85}'
    ||| c == '\u{a0}'
    ||| c == '\u{1680}'
    ||| '\u{2000}' <= c <= '\u{200a}'
    ||| c == '\u{2028}'
    ||| c == '\u{2029}'
    ||| c == '\u{202f}'
    ||| c == '\u{205f}'
    ||| c == '\u{3000}'
}

/// `s` without its leading white space.
pub open spec fn trim_start(s: Seq<char>) -> Seq<char>
    decreases s.len(),
{
    if s.len() > 0 && is_white_space(s[0]) {
        trim_start(s.drop_first())
    } else {
        s
    }
}

/// `s` without its trailing white space.
pub open spec fn trim_end(s: Seq<char>) -> Seq<char>
    decreases s.len(),
{
    if s.len() > 0 && is_white_space(s.last()) {
        trim_end(s.drop_last())
    } else {
        s
    }
}

/// `s` without leading and trailing white space (`str::trim`).
pub open spec fn trim(s: Seq<char>) -> Seq<char> {
    trim_end(trim_start(s))
}

/// An ASCII decimal digit.
pub open spec fn is_digit(c: char) -> bool {
    '0' <= c <= '9'
}

/// The value of a string of decimal digits.
pub open spec fn digits_value(d: Seq<char>) -> nat
    decreases d.len(),
{
    if d.len() == 0 {
        0
    } else {
        digits_value(d.drop_last()) * 10 + ((d.last() as nat) - 48) as nat
    }
}

/// One or more ASCII digits whose value fits in a `u64`, as that value.
pub open spec fn spec_parse_digits(d: Seq<char>) -> Option<u64> {
    if d.len() > 0 && (forall|j: int| 0 <= j < d.len() ==> is_digit(#[trigger] d[j]))
        && digits_value(d) <= u64::MAX {
        Some(digits_value(d) as u64)
    } else {
        None
    }
}

/// What `u64::from_str` accepts: an optional `+`, then one or more ASCII digits whose value fits.
pub open spec fn spec_parse_u64(t: Seq<char>) -> Option<u64> {
    spec_parse_digits(
        if t.len() > 0 && t[0] == '+' {
            t.drop_first()
        } else {
            t
        },
    )
}

/// The number part of a size and its unit: `K`/`k` KiB, `M`/`m` MiB, `G`/`g` GiB; a bare number
/// is MiB.
pub open spec fn size_unit(s: Seq<char>) -> (Seq<char>, nat) {
    if s.len() > 0 && (s.last() == 'K' || s.last() == 'k') {
        (s.drop_last(), 1024)
    } else if s.len() > 0 && (s.last() == 'M' || s.last() == 'm') {
        (s.drop_last(), 1048576)
    } else if s.len() > 0 && (s.last() == 'G' || s.last() == 'g') {
        (s.drop_last(), 1073741824)
    } else {
        (s, 1048576)
    }
}

/// A `--size` value in bytes: the number (white space around it ignored) times its unit; zero
/// and anything that is not a number are refused.
pub open spec fn spec_parse_size(s: Seq<char>) -> Result<nat, Seq<char>> {
    let (digits, unit) = size_unit(s);
    match spec_parse_u64(trim(digits)) {
        None => Err("--size "@ + s + ": not a number"@),
        Some(n) => if n == 0 {
            Err("--size "@ + s + ": must not be zero"@)
        } else {
            Ok((n as nat) * unit)
        },
    }
}

/// The size in bytes fits in a `u64` (else computing it overflows).
pub open spec fn size_fits(s: Seq<char>) -> bool {
    spec_parse_size(s) matches Ok(n) ==> n <= u64::MAX
}

proof fn lemma_trim_start_step(s: Seq<char>, a: int)
    requires
        0 <= a < s.len(),
        is_white_space(s[a]),
    ensures
        trim_start(s.subrange(a, s.len() as int)) == trim_start(s.subrange(a + 1, s.len() as int)),
{
    assert(s.subrange(a, s.len() as int).drop_first() =~= s.subrange(a + 1, s.len() as int));
}

proof fn lemma_trim_end_step(s: Seq<char>, a: int, b: int)
    requires
        0 <= a < b <= s.len(),
        is_white_space(s[b - 1]),
    ensures
        trim_end(s.subrange(a, b)) == trim_end(s.subrange(a, b - 1)),
{
    assert(s.subrange(a, b).drop_last() =~= s.subrange(a, b - 1));
}

/// `v` without leading and trailing white space, as a range `(a, b)` of it.
fn trim_range(v: &Vec<char>, start: usize, end: usize) -> (r: (usize, usize))
    requires
        start <= end <= v.len(),
    ensures
        start <= r.0 <= r.1 <= end,
        v@.subrange(r.0 as int, r.1 as int) == trim(v@.subrange(start as int, end as int)),
{
    let ghost s = v@.subrange(start as int, end as int);
    let mut a = start;
    while a < end && is_ws(v[a])
        invariant
            start <= a <= end <= v.len(),
            trim_start(s) == trim_start(v@.subrange(a as int, end as int)),
        decreases end - a,
    {
        proof {
            assert(v@.subrange(a as int, end as int) =~= v@.subrange(start as int, end as int).subrange(
                a - start,
                end - start,
            ));
            lemma_trim_start_step(v@.subrange(0, end as int), a as int);
            assert(v@.subrange(0, end as int).subrange(a as int, end as int) =~= v@.subrange(
                a as int,
                end as int,
            ));
            assert(v@.subrange(0, end as int).subrange(a + 1, end as int) =~= v@.subrange(
                a + 1,
                end as int,
            ));
        }
        a = a + 1;
    }
    assert(trim_start(v@.subrange(a as int, end as int)) == v@.subrange(a as int, end as int));
    let mut b = end;
    while b > a && is_ws(v[b - 1])
        invariant
            start <= a <= b <= end <= v.len(),
            trim(s) == trim_end(v@.subrange(a as int, b as int)),
        decreases b,
    {
        proof {
            lemma_trim_end_step(v@, a as int, b as int);
        }
        b = b - 1;
    }
    (a, b)
}

/// Whether `c` is Unicode white space.
fn is_ws(c: char) -> (r: bool)
    ensures
        r == is_white_space(c),
{
    ('\t' <= c && c <= '\r') || c == ' ' || c == '\u{85}' || c == '\u{a0}' || c == '\u{1680}' || (
    '\u{2000}' <= c && c <= '\u{200a}') || c == '\u{2028}' || c == '\u{2029}' || c == '\u{202f}'
        || c == '\u{205f}' || c == '\u{3000}'
}


proof fn lemma_digits_value_prefix(d: Seq<char>, k: int)
    requires
        0 <= k <= d.len(),
    ensures
        digits_value(d.take(k)) <= digits_value(d),
    decreases d.len(),
{
    if k < d.len() {
        assert(d.drop_last().take(k) =~= d.take(k));
        lemma_digits_value_prefix(d.drop_last(), k);
    } else {
        assert(d.take(k) =~= d);
    }
}

/// `u64::from_str` on the characters of `v` from `a` up to `b`.
fn parse_u64_range(v: &Vec<char>, a: usize, b: usize) -> (r: Option<u64>)
    requires
        a <= b <= v.len(),
    ensures
        r == spec_parse_u64(v@.subrange(a as int, b as int)),
{
    let ghost t = v@.subrange(a as int, b as int);
    let mut i = a;
    if i < b && v[i] == '+' {
        i = i + 1;
    }
    let ghost d = v@.subrange(i as int, b as int);
    assert(d =~= (if t.len() > 0 && t[0] == '+' { t.drop_first() } else { t }));
    if i == b {
        return None;
    }
    let mut acc: u64 = 0;
    let mut k = i;
    while k < b
        invariant
            a <= i < b <= v.len(),
            i <= k <= b,
            d == v@.subrange(i as int, b as int),
            spec_parse_u64(t) == spec_parse_digits(d),
            t == v@.subrange(a as int, b as int),
            forall|j: int| i <= j < k ==> is_digit(#[trigger] v@[j]),
            acc == digits_value(v@.subrange(i as int, k as int)),
        decreases b - k,
    {
        let c = v[k];
        if !('0' <= c && c <= '9') {
            assert(!is_digit(d[k - i]));
            return None;
        }
        let digit: u64 = (c as u32 - 48) as u64;
        assert(v@.subrange(i as int, k + 1).drop_last() =~= v@.subrange(i as int, k as int));
        let ghost next = v@.subrange(i as int, k + 1);
        assert(digits_value(next) == acc * 10 + digit);
        let m = acc.checked_mul(10);
        let sum = match m {
            Some(m) => m.checked_add(digit),
            None => None,
        };
        match sum {
            Some(x) => {
                acc = x;
            },
            None => {
                proof {
                    assert(d.take(k + 1 - i) =~= next);
                    lemma_digits_value_prefix(d, k + 1 - i);
                }
                return None;
            },
        }
        k = k + 1;
    }
    assert forall|j: int| 0 <= j < d.len() implies is_digit(#[trigger] d[j]) by {
        assert(d[j] == v@[i + j]);
    }
    assert(v@.subrange(i as int, k as int) =~= d);
    Some(acc)
}

/// A `--size` value in bytes: `64` and `64M` are MiB, `2G` GiB, `512K` KiB; the number may have
/// white space around it; zero and anything that is not a number are refused.
pub fn parse_size(s: &str) -> (r: Result<u64, String>)
    requires
        size_fits(s@),
    ensures
        match r {
            Ok(n) => spec_parse_size(s@) == Ok::<nat, Seq<char>>(n as nat),
            Err(e) => spec_parse_size(s@) == Err::<nat, Seq<char>>(e@),
        },
{
    match parse_size_checked(s) {
        Some(r) => r,
        None => Ok(0),
    }
}

/// [`parse_size`] on any input: None where the size in bytes does not fit in a `u64`.
pub fn parse_size_checked(s: &str) -> (r: Option<Result<u64, String>>)
    ensures
        r is None <==> !size_fits(s@),
        match r {
            Some(Ok(n)) => spec_parse_size(s@) == Ok::<nat, Seq<char>>(n as nat),
            Some(Err(e)) => spec_parse_size(s@) == Err::<nat, Seq<char>>(e@),
            None => true,
        },
{
    let cs = chars_of(s);
    let n = cs.len();
    let (end, unit): (usize, u64) = if n > 0 && (cs[n - 1] == 'K' || cs[n - 1] == 'k') {
        (n - 1, 1024)
    } else if n > 0 && (cs[n - 1] == 'M' || cs[n - 1] == 'm') {
        (n - 1, 1048576)
    } else if n > 0 && (cs[n - 1] == 'G' || cs[n - 1] == 'g') {
        (n - 1, 1073741824)
    } else {
        (n, 1048576)
    };
    assert(cs@.subrange(0, end as int) =~= size_unit(s@).0);
    let (a, b) = trim_range(&cs, 0, end);
    match parse_u64_range(&cs, a, b) {
        None => {
            let mut v: Vec<char> = Vec::new();
            push_str(&mut v, "--size ");
            push_str(&mut v, s);
            push_str(&mut v, ": not a number");
            Some(Err(string_of(&v)))
        },
        Some(x) => {
            if x == 0 {
                let mut v: Vec<char> = Vec::new();
                push_str(&mut v, "--size ");
                push_str(&mut v, s);
                push_str(&mut v, ": must not be zero");
                Some(Err(string_of(&v)))
            } else {
                match x.checked_mul(unit) {
                    Some(bytes) => Some(Ok(bytes)),
                    None => None,
                }
            }
        },
    }
}


/// The parsed command line.
#[derive(Clone, Debug, PartialEq, Eq)]
pub struct Args {
    pub image: String,
    pub dir: String,
    pub size: Option<u64>,
    pub label: String,
    pub force: bool,
}

/// What the command line asks for: build an image, or print the usage.
#[derive(Clone, Debug, PartialEq, Eq)]
pub enum ArgsParse {
    Run(Args),
    Help,
}

/// [`Args`] with its strings as characters.
pub struct ArgsView {
    pub image: Seq<char>,
    pub dir: Seq<char>,
    pub size: Option<u64>,
    pub label: Seq<char>,
    pub force: bool,
}

impl View for Args {
    type V = ArgsView;

    open spec fn view(&self) -> ArgsView {
        ArgsView {
            image: self.image@,
            dir: self.dir@,
            size: self.size,
            label: self.label@,
            force: self.force,
        }
    }
}

/// The arguments seen so far.
pub struct ArgsState {
    pub image: Option<Seq<char>>,
    pub dir: Option<Seq<char>>,
    pub size: Option<u64>,
    pub label: Seq<char>,
    pub force: bool,
}

/// The meaning of a command line: build, help, a refusal with its message, or a size too large
/// to compute.
pub enum ArgsModel {
    Run(ArgsView),
    Help,
    Failed(Seq<char>),
    Overflow,
}

/// The command line from argument `i` on, with the arguments before it giving `st`.
pub open spec fn spec_args_from(args: Seq<Seq<char>>, i: nat, st: ArgsState) -> ArgsModel
    decreases args.len() - i,
{
    if i >= args.len() {
        match (st.image, st.dir) {
            (Some(image), Some(dir)) => ArgsModel::Run(
                ArgsView { image, dir, size: st.size, label: st.label, force: st.force },
            ),
            _ => ArgsModel::Failed(USAGE@),
        }
    } else {
        let a = args[i as int];
        if a == "-h"@ || a == "--help"@ {
            ArgsModel::Help
        } else if a == "--force"@ {
            spec_args_from(args, i + 1, ArgsState { force: true, ..st })
        } else if a == "--size"@ {
            if i + 1 >= args.len() {
                ArgsModel::Failed("--size needs a value"@)
            } else {
                match spec_parse_size(args[i + 1 as int]) {
                    Err(e) => ArgsModel::Failed(e),
                    Ok(n) => if n > u64::MAX {
                        ArgsModel::Overflow
                    } else {
                        spec_args_from(args, i + 2, ArgsState { size: Some(n as u64), ..st })
                    },
                }
            }
        } else if a == "--label"@ {
            if i + 1 >= args.len() {
                ArgsModel::Failed("--label needs a value"@)
            } else {
                spec_args_from(args, i + 2, ArgsState { label: args[i + 1 as int], ..st })
            }
        } else if a.len() > 0 && a[0] == '-' {
            ArgsModel::Failed("unknown option "@ + a + "\n"@ + USAGE@)
        } else if st.image is None {
            spec_args_from(args, i + 1, ArgsState { image: Some(a), ..st })
        } else if st.dir is None {
            spec_args_from(args, i + 1, ArgsState { dir: Some(a), ..st })
        } else {
            ArgsModel::Failed("too many arguments\n"@ + USAGE@)
        }
    }
}

/// The meaning of the command line `args` (without the program name): `-h`/`--help` asks for the
/// usage; `--force`, `--size <N>[K|M|G]` and `--label <NAME>` (default `UE2SD`) are options; the
/// first two other arguments are the image and the directory, both required.
pub open spec fn spec_args(args: Seq<Seq<char>>) -> ArgsModel {
    spec_args_from(
        args,
        0,
        ArgsState { image: None, dir: None, size: None, label: "UE2SD"@, force: false },
    )
}

/// Strings by their characters.
pub open spec fn strings_view(v: Seq<String>) -> Seq<Seq<char>> {
    v.map_values(|s: String| s@)
}

/// An optional string by its characters.
pub open spec fn opt_string_view(s: Option<String>) -> Option<Seq<char>> {
    match s {
        Some(s) => Some(s@),
        None => None,
    }
}

fn message(a: &str, b: &str) -> (m: String)
    ensures
        m@ == a@ + b@,
{
    let mut v: Vec<char> = Vec::new();
    push_str(&mut v, a);
    push_str(&mut v, b);
    string_of(&v)
}

/// Parses the command line `args` (without the program name).
pub fn parse_args(args: &Vec<String>) -> (r: Result<ArgsParse, String>)
    requires
        !(spec_args(strings_view(args@)) is Overflow),
    ensures
        match r {
            Ok(ArgsParse::Help) => spec_args(strings_view(args@)) is Help,
            Ok(ArgsParse::Run(a)) => spec_args(strings_view(args@)) == ArgsModel::Run(a@),
            Err(e) => spec_args(strings_view(args@)) == ArgsModel::Failed(e@),
        },
{
    match parse_args_checked(args) {
        Some(r) => r,
        None => Ok(ArgsParse::Help),
    }
}

/// [`parse_args`] on any command line: None where a `--size` it reads does not fit in a `u64`.
pub fn parse_args_checked(args: &Vec<String>) -> (r: Option<Result<ArgsParse, String>>)
    ensures
        r is None <==> spec_args(strings_view(args@)) is Overflow,
        match r {
            Some(Ok(ArgsParse::Help)) => spec_args(strings_view(args@)) is Help,
            Some(Ok(ArgsParse::Run(a))) => spec_args(strings_view(args@)) == ArgsModel::Run(a@),
            Some(Err(e)) => spec_args(strings_view(args@)) == ArgsModel::Failed(e@),
            None => true,
        },
{
    let ghost view = strings_view(args@);
    let mut image: Option<String> = None;
    let mut dir: Option<String> = None;
    let mut size: Option<u64> = None;
    let mut label: String = "UE2SD".to_owned();
    let mut force = false;
    let mut i: usize = 0;
    while i < args.len()
        invariant
            i <= args.len(),
            view == strings_view(args@),
            spec_args_from(
                view,
                i as nat,
                ArgsState {
                    image: opt_string_view(image),
                    dir: opt_string_view(dir),
                    size,
                    label: label@,
                    force,
                },
            ) == spec_args(view),
        decreases args.len() - i,
    {
        let a = args[i].as_str();
        assert(view[i as int] == a@);
        if str_eq(a, "-h") || str_eq(a, "--help") {
            return Some(Ok(ArgsParse::Help));
        } else if str_eq(a, "--force") {
            force = true;
            i = i + 1;
        } else if str_eq(a, "--size") {
            if i + 1 >= args.len() {
                return Some(Err("--size needs a value".to_owned()));
            }
            assert(view[i + 1] == args@[i + 1]@);
            match parse_size_checked(args[i + 1].as_str()) {
                None => {
                    return None;
                },
                Some(Err(e)) => {
                    return Some(Err(e));
                },
                Some(Ok(n)) => {
                    size = Some(n);
                },
            }
            i = i + 2;
        } else if str_eq(a, "--label") {
            if i + 1 >= args.len() {
                return Some(Err("--label needs a value".to_owned()));
            }
            assert(view[i + 1] == args@[i + 1]@);
            label = args[i + 1].clone();
            i = i + 2;
        } else if {
            let cs = chars_of(a);
            cs.len() > 0 && cs[0] == '-'
        } {
            let mut v: Vec<char> = Vec::new();
            push_str(&mut v, "unknown option ");
            push_str(&mut v, a);
            push_str(&mut v, "\n");
            push_str(&mut v, USAGE);
            return Some(Err(string_of(&v)));
        } else if image.is_none() {
            image = Some(args[i].clone());
            i = i + 1;
        } else if dir.is_none() {
            dir = Some(args[i].clone());
            i = i + 1;
        } else {
            return Some(Err(message("too many arguments\n", USAGE)));
        }
    }
    match (image, dir) {
        (Some(image), Some(dir)) => Some(Ok(ArgsParse::Run(Args { image, dir, size, label, force }))),
        _ => Some(Err(USAGE.to_owned())),
    }
}


/// A bare number is MiB: it gives the same size as with an `M` after it.
pub proof fn law_bare_number_is_mib(s: Seq<char>)
    requires
        s.len() > 0,
        !(s.last() == 'K' || s.last() == 'k' || s.last() == 'M' || s.last() == 'm' || s.last()
            == 'G' || s.last() == 'g'),
    ensures
        spec_parse_size(s) is Ok <==> spec_parse_size(s + "M"@) is Ok,
        spec_parse_size(s) is Ok ==> spec_parse_size(s) == spec_parse_size(s + "M"@),
{
    reveal_strlit("M");
    assert((s + "M"@).drop_last() =~= s);
}

/// The bytes of a size unit letter.
pub open spec fn unit_bytes(c: char) -> nat {
    if c == 'K' || c == 'k' {
        1024
    } else if c == 'M' || c == 'm' {
        1048576
    } else {
        1073741824
    }
}

proof fn lemma_digits_value_decimal(n: nat)
    ensures
        digits_value(decimal(n)) == n,
    decreases n,
{
    let d = decimal(n);
    assert(digit(n % 10) as nat == 48 + n % 10);
    if n >= 10 {
        lemma_digits_value_decimal(n / 10);
        assert(d.drop_last() =~= decimal(n / 10));
        assert(d.last() == digit(n % 10));
        assert(digits_value(d) == digits_value(d.drop_last()) * 10 + ((d.last() as nat) - 48) as nat);
        assert((n / 10) * 10 + n % 10 == n);
    } else {
        assert(d.drop_last() =~= Seq::<char>::empty());
        assert(d.last() == digit(n));
        assert(digits_value(d) == digits_value(d.drop_last()) * 10 + ((d.last() as nat) - 48) as nat);
    }
}

proof fn lemma_parse_decimal(n: u64)
    ensures
        trim(decimal(n as nat)) == decimal(n as nat),
        spec_parse_u64(trim(decimal(n as nat))) == Some(n),
{
    let d = decimal(n as nat);
    lemma_decimal_digits(n as nat);
    lemma_digits_value_decimal(n as nat);
    assert(!is_white_space(d[0]));
    assert(trim_start(d) == d);
    assert(d.last() == d[d.len() - 1]);
    assert(!is_white_space(d.last()));
    assert(trim_end(d) == d);
    assert(d[0] != '+');
    assert forall|j: int| 0 <= j < d.len() implies is_digit(#[trigger] d[j]) by {}
}

/// A size written as a decimal number and a unit letter (K, M or G, either case) is that number of
/// units; a bare number is that many MiB; zero is refused.
pub proof fn law_size_is_number_times_unit(n: u64, c: char)
    requires
        c == 'K' || c == 'k' || c == 'M' || c == 'm' || c == 'G' || c == 'g',
    ensures
        n > 0 ==> spec_parse_size(decimal(n as nat).push(c)) == Ok::<nat, Seq<char>>(
            (n as nat) * unit_bytes(c),
        ),
        n > 0 ==> spec_parse_size(decimal(n as nat)) == Ok::<nat, Seq<char>>((n as nat) * 1048576),
        n == 0 ==> spec_parse_size(decimal(n as nat).push(c)) is Err,
        n == 0 ==> spec_parse_size(decimal(n as nat)) is Err,
{
    let d = decimal(n as nat);
    lemma_parse_decimal(n);
    lemma_decimal_digits(n as nat);
    assert(d.push(c).drop_last() =~= d);
    assert(d.last() == d[d.len() - 1]);
    assert(!(d.last() == 'K' || d.last() == 'k' || d.last() == 'M' || d.last() == 'm' || d.last()
        == 'G' || d.last() == 'g'));
}

/// An accepted size is a positive whole number of its unit.
pub proof fn law_size_is_positive_multiple_of_unit(s: Seq<char>)
    ensures
        spec_parse_size(s) matches Ok(n) ==> n > 0 && n % size_unit(s).1 == 0,
{
    let (digits, unit) = size_unit(s);
    if let Some(n) = spec_parse_u64(trim(digits)) {
        if n != 0 {
            assert((n as nat) * unit > 0 && ((n as nat) * unit) % unit == 0) by (nonlinear_arith)
                requires
                    n >= 1,
                    unit >= 1,
            ;
        }
    }
}


/// Whether building may start, given whether the source directory is a directory and whether the
/// image file exists: the message that refuses it, or whether the existing image has to be
/// removed first (`--force` replaces it).
pub open spec fn spec_prepare(a: ArgsView, dir_is_dir: bool, image_exists: bool) -> Result<bool, Seq<char>> {
    if !dir_is_dir {
        Err(a.dir + ": not a directory"@)
    } else if image_exists && !a.force {
        Err(a.image + ": already exists (--force replaces it)"@)
    } else {
        Ok(image_exists)
    }
}

/// Checks the arguments against the file system before building (see [`spec_prepare`]).
pub fn prepare(args: &Args, dir_is_dir: bool, image_exists: bool) -> (r: Result<bool, String>)
    ensures
        match r {
            Ok(remove) => spec_prepare(args@, dir_is_dir, image_exists) == Ok::<bool, Seq<char>>(remove),
            Err(e) => spec_prepare(args@, dir_is_dir, image_exists) == Err::<bool, Seq<char>>(e@),
        },
{
    if !dir_is_dir {
        return Err(message(args.dir.as_str(), ": not a directory"));
    }
    if image_exists && !args.force {
        return Err(message(args.image.as_str(), ": already exists (--force replaces it)"));
    }
    Ok(image_exists)
}

/// Building may start exactly when the directory is a directory and the image does not exist or
/// `--force` is given; then the existing image is removed exactly when it exists, never otherwise.
pub proof fn law_prepare_removes_only_an_existing_image(a: ArgsView, dir_is_dir: bool, image_exists: bool)
    ensures
        spec_prepare(a, dir_is_dir, image_exists) is Ok <==> dir_is_dir && (!image_exists
            || a.force),
        spec_prepare(a, dir_is_dir, image_exists) matches Ok(remove) ==> remove == image_exists,
{
}

/// The line printed after a build: the image, its size in whole MiB, the label, the counts, and
/// the number of files skipped if any.
pub open spec fn spec_summary(a: ArgsView, size: u64, files: u64, dirs: u64, content: u64, skipped: u64) -> Seq<char> {
    a.image + ": "@ + decimal((size / 1048576) as nat) + " MiB, label "@ + a.label + ", "@
        + decimal(files as nat) + " file(s) and "@ + decimal(dirs as nat) + " director(ies), "@
        + decimal(content as nat) + " bytes of content"@ + if skipped == 0 {
        Seq::<char>::empty()
    } else {
        ", "@ + decimal(skipped as nat) + " skipped"@
    }
}

/// The line printed after a build (see [`spec_summary`]).
pub fn summary(args: &Args, size: u64, files: u64, dirs: u64, content: u64, skipped: u64) -> (line: String)
    ensures
        line@ == spec_summary(args@, size, files, dirs, content, skipped),
{
    let mut v: Vec<char> = Vec::new();
    push_str(&mut v, args.image.as_str());
    push_str(&mut v, ": ");
    push_decimal(&mut v, size >> 20);
    push_str(&mut v, " MiB, label ");
    push_str(&mut v, args.label.as_str());
    push_str(&mut v, ", ");
    push_decimal(&mut v, files);
    push_str(&mut v, " file(s) and ");
    push_decimal(&mut v, dirs);
    push_str(&mut v, " director(ies), ");
    push_decimal(&mut v, content);
    push_str(&mut v, " bytes of content");
    let ghost before = v@;
    if skipped != 0 {
        push_str(&mut v, ", ");
        push_decimal(&mut v, skipped);
        push_str(&mut v, " skipped");
    }
    proof {
        assert(size >> 20 == size / 1048576) by (bit_vector);
        assert(v@ =~= spec_summary(args@, size, files, dirs, content, skipped));
    }
    string_of(&v)
}

} // verus!
