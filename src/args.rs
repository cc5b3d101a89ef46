use vstd::prelude::*;

verus! {

/// What a command-line argument asks for, by its flag.
#[derive(Clone, Copy, Debug, PartialEq, Eq, Structural)]
pub enum ArgKind {
    /// `-nir` / `--nir`: the first band's file.
    Nir,
    /// `-red` / `--red`: the second band's file.
    Red,
    /// `-o` / `--output`: the output file.
    Output,
    /// `-clip` / `--clip`: the tail clip amount, in percent.
    Clip,
    /// `-osavi` / `--osavi`: use the soil-adjusted formula.
    Osavi,
    /// Anything else, which is ignored.
    Other,
}

/// Why the arguments could not be read.
#[derive(Clone, Copy, Debug, PartialEq, Eq, Structural)]
pub enum ArgError {
    /// No argument at all was given.
    NoArguments,
    /// A flag that takes a value is the last argument and has no `=value`.
    MissingValue,
}

/// What the arguments set. Values are kept as given; the clip amount is
/// still text.
pub struct Settings {
    pub nir_file: String,
    pub red_file: String,
    pub output_file: String,
    pub clip: Option<String>,
    pub osavi: bool,
}

/// The mathematical content of `Settings`.
pub struct SettingsView {
    pub nir_file: Seq<char>,
    pub red_file: Seq<char>,
    pub output_file: Seq<char>,
    pub clip: Option<Seq<char>>,
    pub osavi: bool,
}

impl Settings {
    pub open spec fn view(&self) -> SettingsView {
        SettingsView {
            nir_file: self.nir_file@,
            red_file: self.red_file@,
            output_file: self.output_file@,
            clip: match self.clip {
                Some(c) => Some(c@),
                None => None,
            },
            osavi: self.osavi,
        }
    }
}

/// `s` without its double and single quote marks.
pub open spec fn strip_quotes(s: Seq<char>) -> Seq<char>
    decreases s.len(),
{
    if s.len() == 0 {
        s
    } else {
        let prefix = strip_quotes(s.drop_last());
        if s.last() == '"' || s.last() == '\'' {
            prefix
        } else {
            prefix.push(s.last())
        }
    }
}

/// The position of the first `=` in `s`, or its length when there is none.
pub open spec fn first_eq(s: Seq<char>) -> nat
    decreases s.len(),
{
    if s.len() == 0 || s[0] == '=' {
        0
    } else {
        1 + first_eq(s.skip(1))
    }
}

/// The flag part of an argument: up to the first `=`, quotes removed.
pub open spec fn arg_key(a: Seq<char>) -> Seq<char> {
    let t = strip_quotes(a);
    t.take(first_eq(t) as int)
}

/// The value written after the flag's `=`, up to any further `=`.
pub open spec fn inline_value(a: Seq<char>) -> Option<Seq<char>> {
    let t = strip_quotes(a);
    let k = first_eq(t);
    if k < t.len() {
        let rest = t.skip((k + 1) as int);
        Some(rest.take(first_eq(rest) as int))
    } else {
        None
    }
}

/// `c` is the lower-case ASCII letter or symbol `f`, in either case.
pub open spec fn folds_to(c: char, f: char) -> bool {
    c == f || ('a' <= f && f <= 'z' && c as u32 + 32 == f as u32)
}

/// `key` spells `flag` (written in lower case), ignoring ASCII case. The
/// flags are ASCII, and no other character lower-cases to one of their
/// letters alone, so this is the same test as lower-casing `key` first.
pub open spec fn key_matches(key: Seq<char>, flag: Seq<char>) -> bool {
    key.len() == flag.len() && forall|i: int| 0 <= i < key.len() ==> folds_to(#[trigger] key[i], flag[i])
}

pub open spec fn spec_kind(key: Seq<char>) -> ArgKind {
    if key_matches(key, seq!['-', 'n', 'i', 'r']) || key_matches(key, seq!['-', '-', 'n', 'i', 'r']) {
        ArgKind::Nir
    } else if key_matches(key, seq!['-', 'r', 'e', 'd']) || key_matches(key, seq!['-', '-', 'r', 'e', 'd']) {
        ArgKind::Red
    } else if key_matches(key, seq!['-', 'o']) || key_matches(key, seq!['-', '-', 'o', 'u', 't', 'p', 'u', 't']) {
        ArgKind::Output
    } else if key_matches(key, seq!['-', 'c', 'l', 'i', 'p']) || key_matches(key, seq!['-', '-', 'c', 'l', 'i', 'p']) {
        ArgKind::Clip
    } else if key_matches(key, seq!['-', 'o', 's', 'a', 'v', 'i']) || key_matches(key, seq!['-', '-', 'o', 's', 'a', 'v', 'i']) {
        ArgKind::Osavi
    } else {
        ArgKind::Other
    }
}

/// The value of the flag at `args[i]`: its `=value`, else the whole next argument.
pub open spec fn flag_value(args: Seq<Seq<char>>, i: int) -> Option<Seq<char>> {
    match inline_value(args[i]) {
        Some(v) => Some(v),
        None => if i + 1 < args.len() { Some(args[i + 1]) } else { None },
    }
}

/// The settings after argument `i` has been read into `s`.
pub open spec fn read_arg(s: SettingsView, args: Seq<Seq<char>>, i: int) -> Result<SettingsView, ArgError> {
    let kind = spec_kind(arg_key(args[i]));
    if kind == ArgKind::Osavi {
        Ok(SettingsView { nir_file: s.nir_file, red_file: s.red_file, output_file: s.output_file, clip: s.clip, osavi: true })
    } else if kind == ArgKind::Other {
        Ok(s)
    } else {
        match flag_value(args, i) {
            None => Err(ArgError::MissingValue),
            Some(v) => Ok(match kind {
                ArgKind::Nir => SettingsView { nir_file: v, red_file: s.red_file, output_file: s.output_file, clip: s.clip, osavi: s.osavi },
                ArgKind::Red => SettingsView { nir_file: s.nir_file, red_file: v, output_file: s.output_file, clip: s.clip, osavi: s.osavi },
                ArgKind::Output => SettingsView { nir_file: s.nir_file, red_file: s.red_file, output_file: v, clip: s.clip, osavi: s.osavi },
                _ => SettingsView { nir_file: s.nir_file, red_file: s.red_file, output_file: s.output_file, clip: Some(v), osavi: s.osavi },
            }),
        }
    }
}

/// The settings after the first `n` arguments, read left to right: a later
/// flag overrides an earlier one.
pub open spec fn settings_after(args: Seq<Seq<char>>, n: nat) -> Result<SettingsView, ArgError>
    decreases n,
{
    if n == 0 {
        Ok(SettingsView { nir_file: Seq::empty(), red_file: Seq::empty(), output_file: Seq::empty(), clip: None, osavi: false })
    } else {
        match settings_after(args, (n - 1) as nat) {
            Err(e) => Err(e),
            Ok(s) => read_arg(s, args, n - 1),
        }
    }
}

pub open spec fn arg_views(args: Seq<String>) -> Seq<Seq<char>> {
    args.map_values(|a: String| a@)
}

/// Relies on String's FromIterator<&char>: the string of the characters, in order.
#[verifier::external_body]
fn string_of(chars: &[char]) -> (r: String)
    ensures
        r@ == chars@,
{
    chars.iter().collect()
}

/// The characters of `s`.
fn chars_of(s: &str) -> (r: Vec<char>)
    ensures
        r@ == s@,
{
    let mut out: Vec<char> = Vec::new();
    for c in it: s.chars()
        invariant
            out@ == it.seq().take(it.index() as int),
            it.seq() == s@,
    {
        out.push(c);
    }
    out
}

/// The characters of `s` without quote marks.
pub fn without_quotes(s: &str) -> (r: Vec<char>)
    ensures
        r@ == strip_quotes(s@),
{
    let chars = chars_of(s);
    let mut out: Vec<char> = Vec::new();
    let mut i: usize = 0;
    while i < chars.len()
        invariant
            i <= chars@.len(),
            out@ == strip_quotes(chars@.take(i as int)),
        decreases chars@.len() - i,
    {
        proof { assert(chars@.take(i + 1).drop_last() =~= chars@.take(i as int)); }
        let c = chars[i];
        if c != '"' && c != '\'' {
            out.push(c);
        }
        i += 1;
    }
    proof { assert(chars@.take(i as int) =~= chars@); }
    out
}

/// A scan that found no `=` before position `i`, and `=` or the end at `i`,
/// found the first `=`.
proof fn lemma_first_eq(t: Seq<char>, i: int)
    requires
        0 <= i <= t.len(),
        forall|j: int| 0 <= j < i ==> t[j] != '=',
        i == t.len() || t[i] == '=',
    ensures
        first_eq(t) == i,
    decreases i,
{
    if i > 0 {
        let u = t.skip(1);
        assert forall|j: int| 0 <= j < i - 1 implies u[j] != '=' by {
            assert(u[j] == t[j + 1]);
        }
        if i < t.len() {
            assert(u[i - 1] == t[i]);
        }
        lemma_first_eq(u, i - 1);
    }
}

/// The position of the first `=` in `s` at or after `from`, or the length.
fn find_eq(s: &Vec<char>, from: usize) -> (r: usize)
    requires
        from <= s@.len(),
    ensures
        from <= r <= s@.len(),
        r - from == first_eq(s@.skip(from as int)),
{
    let mut i = from;
    while i < s.len() && s[i] != '='
        invariant
            from <= i <= s@.len(),
            forall|j: int| from <= j < i ==> s@[j] != '=',
        decreases s@.len() - i,
    {
        i += 1;
    }
    proof {
        let t = s@.skip(from as int);
        assert forall|j: int| 0 <= j < i - from implies t[j] != '=' by {
            assert(t[j] == s@[from + j]);
        }
        if i < s@.len() {
            assert(t[i - from] == s@[i as int]);
        }
        lemma_first_eq(t, i - from);
    }
    i
}

/// Whether `key` spells `flag` (given in lower case), ignoring ASCII case.
fn key_is(key: &Vec<char>, flag: &Vec<char>) -> (r: bool)
    ensures
        r == key_matches(key@, flag@),
{
    if key.len() != flag.len() {
        return false;
    }
    let mut i: usize = 0;
    while i < key.len()
        invariant
            key@.len() == flag@.len(),
            i <= key@.len(),
            forall|j: int| 0 <= j < i ==> folds_to(#[trigger] key@[j], flag@[j]),
        decreases key@.len() - i,
    {
        let c = key[i];
        let f = flag[i];
        let same = c == f || ('a' <= f && f <= 'z' && c as u32 == f as u32 - 32);
        if !same {
            return false;
        }
        i += 1;
    }
    true
}

/// What the flag `key` asks for.
pub fn kind_of(key: &Vec<char>) -> (r: ArgKind)
    ensures
        r == spec_kind(key@),
{
    let nir1 = vec!['-', 'n', 'i', 'r'];
    let nir2 = vec!['-', '-', 'n', 'i', 'r'];
    let red1 = vec!['-', 'r', 'e', 'd'];
    let red2 = vec!['-', '-', 'r', 'e', 'd'];
    let out1 = vec!['-', 'o'];
    let out2 = vec!['-', '-', 'o', 'u', 't', 'p', 'u', 't'];
    let clip1 = vec!['-', 'c', 'l', 'i', 'p'];
    let clip2 = vec!['-', '-', 'c', 'l', 'i', 'p'];
    let osavi1 = vec!['-', 'o', 's', 'a', 'v', 'i'];
    let osavi2 = vec!['-', '-', 'o', 's', 'a', 'v', 'i'];
    proof {
        assert(nir1@ =~= seq!['-', 'n', 'i', 'r']);
        assert(nir2@ =~= seq!['-', '-', 'n', 'i', 'r']);
        assert(red1@ =~= seq!['-', 'r', 'e', 'd']);
        assert(red2@ =~= seq!['-', '-', 'r', 'e', 'd']);
        assert(out1@ =~= seq!['-', 'o']);
        assert(out2@ =~= seq!['-', '-', 'o', 'u', 't', 'p', 'u', 't']);
        assert(clip1@ =~= seq!['-', 'c', 'l', 'i', 'p']);
        assert(clip2@ =~= seq!['-', '-', 'c', 'l', 'i', 'p']);
        assert(osavi1@ =~= seq!['-', 'o', 's', 'a', 'v', 'i']);
        assert(osavi2@ =~= seq!['-', '-', 'o', 's', 'a', 'v', 'i']);
    }
    if key_is(key, &nir1) || key_is(key, &nir2) {
        ArgKind::Nir
    } else if key_is(key, &red1) || key_is(key, &red2) {
        ArgKind::Red
    } else if key_is(key, &out1) || key_is(key, &out2) {
        ArgKind::Output
    } else if key_is(key, &clip1) || key_is(key, &clip2) {
        ArgKind::Clip
    } else if key_is(key, &osavi1) || key_is(key, &osavi2) {
        ArgKind::Osavi
    } else {
        ArgKind::Other
    }
}

/// The characters `s[from..to]`.
fn slice_of(s: &Vec<char>, from: usize, to: usize) -> (r: Vec<char>)
    requires
        from <= to <= s@.len(),
    ensures
        r@ == s@.subrange(from as int, to as int),
{
    let mut out: Vec<char> = Vec::new();
    let mut i = from;
    while i < to
        invariant
            from <= i <= to <= s@.len(),
            out@ == s@.subrange(from as int, i as int),
        decreases to - i,
    {
        out.push(s[i]);
        i += 1;
        proof { assert(out@ =~= s@.subrange(from as int, i as int)); }
    }
    out
}

/// Splits one argument into its flag and the value after its `=`, if any.
pub fn split_arg(arg: &str) -> (r: (Vec<char>, Option<Vec<char>>))
    ensures
        r.0@ == arg_key(arg@),
        match r.1 {
            Some(v) => inline_value(arg@) == Some(v@),
            None => inline_value(arg@) is None,
        },
{
    let t = without_quotes(arg);
    let k = find_eq(&t, 0);
    proof { assert(t@.skip(0) =~= t@); }
    let key = slice_of(&t, 0, k);
    proof { assert(key@ =~= t@.take(k as int)); }
    if k < t.len() {
        let e = find_eq(&t, k + 1);
        let value = slice_of(&t, k + 1, e);
        proof {
            let rest = t@.skip(k + 1);
            assert(value@ =~= rest.take(first_eq(rest) as int));
        }
        (key, Some(value))
    } else {
        (key, None)
    }
}

/// Reads the tool's arguments: the two band files, the output file, the
/// clip amount and the soil-adjusted flag. Flags may be written `-flag` or
/// `--flag` in any ASCII case, with the value after `=` or as the next
/// argument; quote marks in an argument are ignored, and a later flag
/// overrides an earlier one.
pub fn parse_arguments(args: &Vec<String>) -> (r: Result<Settings, ArgError>)
    ensures
        args@.len() == 0 ==> r == Err::<Settings, ArgError>(ArgError::NoArguments),
        args@.len() > 0 ==> match (r, settings_after(arg_views(args@), args@.len())) {
            (Ok(s), Ok(v)) => s.view() == v,
            (Err(e), Err(f)) => e == f,
            _ => false,
        },
{
    if args.len() == 0 {
        return Err(ArgError::NoArguments);
    }
    let ghost views = arg_views(args@);
    let mut settings = Settings {
        nir_file: String::new(),
        red_file: String::new(),
        output_file: String::new(),
        clip: None,
        osavi: false,
    };
    let mut i: usize = 0;
    proof { assert(settings.view().nir_file =~= Seq::<char>::empty()); }
    while i < args.len()
        invariant
            i <= args@.len(),
            views == arg_views(args@),
            settings_after(views, i as nat) == Ok::<SettingsView, ArgError>(settings.view()),
        decreases args@.len() - i,
    {
        let (key, inline) = split_arg(args[i].as_str());
        let kind = kind_of(&key);
        proof { assert(views[i as int] == args@[i as int]@); }
        if kind == ArgKind::Osavi {
            settings.osavi = true;
        } else if kind != ArgKind::Other {
            let value: String = match inline {
                Some(v) => string_of(v.as_slice()),
                None => {
                    if i + 1 < args.len() {
                        proof { assert(views[i + 1] == args@[i + 1]@); }
                        args[i + 1].clone()
                    } else {
                        return Err(ArgError::MissingValue);
                    }
                },
            };
            match kind {
                ArgKind::Nir => settings.nir_file = value,
                ArgKind::Red => settings.red_file = value,
                ArgKind::Output => settings.output_file = value,
                _ => settings.clip = Some(value),
            }
        }
        i += 1;
    }
    Ok(settings)
}

} // verus!
