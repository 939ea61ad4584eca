//! The builtin command table and the decisions behind the builtins: which
//! name is a builtin, where `cd` goes, how `alias`, `export` and `unalias`
//! read their arguments, what `type` answers, how `fg` reads its process id,
//! and when the scripting REPL has collected a complete input. The side
//! effects (changing directory, setting environment variables, signalling
//! processes, evaluating script text) happen outside the library.

use vstd::prelude::*;

use crate::chars::chars_eq_str;
use crate::chars::chars_string;
use crate::chars::push_all;
use crate::chars::str_chars;
use crate::chars::subvec;
use crate::table::StrTable;

verus! {

/// How a command was handled by the builtin table.
pub enum BuiltinResult {
    /// The command was a builtin and was run.
    Handled,
    /// The command is no builtin; execution falls through.
    NotBuiltin,
    /// The interpreter should exit.
    Exit,
}

/// The builtin commands.
#[derive(Debug, Clone, Copy, PartialEq, Eq, Structural)]
pub enum BuiltinCommand {
    Cd,
    History,
    Source,
    Plugins,
    Pwd,
    Exit,
    Alias,
    Rhai,
    Fg,
    Export,
    Unalias,
    Unset,
    TypeOf,
    Help,
    Version,
}

/// The builtin a command name resolves to, if any. `source` and `load` are
/// the same builtin.
pub open spec fn builtin_of(name: Seq<char>) -> Option<BuiltinCommand> {
    if name == "cd"@ {
        Some(BuiltinCommand::Cd)
    } else if name == "history"@ {
        Some(BuiltinCommand::History)
    } else if name == "source"@ || name == "load"@ {
        Some(BuiltinCommand::Source)
    } else if name == "plugins"@ {
        Some(BuiltinCommand::Plugins)
    } else if name == "pwd"@ {
        Some(BuiltinCommand::Pwd)
    } else if name == "exit"@ {
        Some(BuiltinCommand::Exit)
    } else if name == "alias"@ {
        Some(BuiltinCommand::Alias)
    } else if name == "rhai"@ {
        Some(BuiltinCommand::Rhai)
    } else if name == "fg"@ {
        Some(BuiltinCommand::Fg)
    } else if name == "export"@ {
        Some(BuiltinCommand::Export)
    } else if name == "unalias"@ {
        Some(BuiltinCommand::Unalias)
    } else if name == "unset"@ {
        Some(BuiltinCommand::Unset)
    } else if name == "type"@ {
        Some(BuiltinCommand::TypeOf)
    } else if name == "help"@ {
        Some(BuiltinCommand::Help)
    } else if name == "version"@ {
        Some(BuiltinCommand::Version)
    } else {
        None
    }
}

/// Resolves a command name against the builtin table.
pub fn classify_builtin(name: &str) -> (r: Option<BuiltinCommand>)
    ensures
        r == builtin_of(name@),
{
    let nc = str_chars(name);
    if chars_eq_str(&nc, "cd") {
        Some(BuiltinCommand::Cd)
    } else if chars_eq_str(&nc, "history") {
        Some(BuiltinCommand::History)
    } else if chars_eq_str(&nc, "source") || chars_eq_str(&nc, "load") {
        Some(BuiltinCommand::Source)
    } else if chars_eq_str(&nc, "plugins") {
        Some(BuiltinCommand::Plugins)
    } else if chars_eq_str(&nc, "pwd") {
        Some(BuiltinCommand::Pwd)
    } else if chars_eq_str(&nc, "exit") {
        Some(BuiltinCommand::Exit)
    } else if chars_eq_str(&nc, "alias") {
        Some(BuiltinCommand::Alias)
    } else if chars_eq_str(&nc, "rhai") {
        Some(BuiltinCommand::Rhai)
    } else if chars_eq_str(&nc, "fg") {
        Some(BuiltinCommand::Fg)
    } else if chars_eq_str(&nc, "export") {
        Some(BuiltinCommand::Export)
    } else if chars_eq_str(&nc, "unalias") {
        Some(BuiltinCommand::Unalias)
    } else if chars_eq_str(&nc, "unset") {
        Some(BuiltinCommand::Unset)
    } else if chars_eq_str(&nc, "type") {
        Some(BuiltinCommand::TypeOf)
    } else if chars_eq_str(&nc, "help") {
        Some(BuiltinCommand::Help)
    } else if chars_eq_str(&nc, "version") {
        Some(BuiltinCommand::Version)
    } else {
        None
    }
}

/// What `cd` should do.
pub enum CdAction {
    /// Change into `path`; `announce` says the path is printed first (the
    /// `cd -` form does that).
    Go { path: String, announce: bool },
    /// `cd -` with no previous directory recorded: an error, nothing moves.
    MissingPrevious,
    /// No argument and no home directory known: nothing moves.
    Stay,
}

/// Resolves the target of `cd`: an explicit argument wins, `-` goes back to
/// the previous directory, no argument goes home.
pub fn resolve_cd_target(
    arg: Option<&String>,
    previous: Option<&String>,
    home: Option<&String>,
) -> (r: CdAction)
    ensures
        match arg {
            Some(a) => {
                if a@ == "-"@ {
                    match previous {
                        Some(p) => r matches CdAction::Go { path, announce } && path@ == p@
                            && announce,
                        None => r is MissingPrevious,
                    }
                } else {
                    r matches CdAction::Go { path, announce } && path@ == a@ && !announce
                }
            },
            None => match home {
                Some(h) => r matches CdAction::Go { path, announce } && path@ == h@ && !announce,
                None => r is Stay,
            },
        },
{
    proof {
        reveal_strlit("-");
    }
    match arg {
        Some(a) => {
            let ac = str_chars(a.as_str());
            if chars_eq_str(&ac, "-") {
                match previous {
                    Some(p) => CdAction::Go { path: p.clone(), announce: true },
                    None => CdAction::MissingPrevious,
                }
            } else {
                CdAction::Go { path: a.clone(), announce: false }
            }
        },
        None => match home {
            Some(h) => CdAction::Go { path: h.clone(), announce: false },
            None => CdAction::Stay,
        },
    }
}

/// The arguments joined with `sep` between them, from position `i` on.
pub open spec fn joined_from(parts: Seq<Seq<char>>, sep: Seq<char>, i: int) -> Seq<char>
    decreases parts.len() - i,
    when 0 <= i
{
    if i >= parts.len() {
        Seq::empty()
    } else if i == parts.len() - 1 {
        parts[i]
    } else {
        parts[i] + sep + joined_from(parts, sep, i + 1)
    }
}

/// Joins the tokens after the command name with `sep`.
fn join_args(tokens: &Vec<String>, sep: &str, from: usize) -> (r: Vec<char>)
    requires
        from <= tokens@.len(),
    ensures
        r@ == joined_from(tokens@.map_values(|t: String| t@), sep@, from as int),
{
    let ghost tv = tokens@.map_values(|t: String| t@);
    let mut out: Vec<char> = Vec::new();
    let mut k: usize = from;
    proof {
        assert(out@ + joined_from(tv, sep@, from as int) =~= joined_from(tv, sep@, from as int));
    }
    while k < tokens.len()
        invariant
            from <= k <= tokens@.len(),
            tv == tokens@.map_values(|t: String| t@),
            out@ + joined_from(tv, sep@, k as int) == joined_from(tv, sep@, from as int),
        decreases tokens@.len() - k,
    {
        let tc = str_chars(tokens[k].as_str());
        push_all(&mut out, &tc);
        if k + 1 < tokens.len() {
            let sc = str_chars(sep);
            push_all(&mut out, &sc);
        }
        k += 1;
        proof {
            assert(out@ + joined_from(tv, sep@, k as int) =~= joined_from(
                tv,
                sep@,
                from as int,
            ));
        }
    }
    proof {
        assert(out@ =~= joined_from(tv, sep@, from as int));
    }
    out
}

/// First position of `c` in `s` at or after `i`, or the length of `s`.
pub open spec fn scan_char(s: Seq<char>, i: int, c: char) -> int
    decreases s.len() - i,
{
    if i < 0 {
        i
    } else if i >= s.len() || s[i] == c {
        i
    } else {
        scan_char(s, i + 1, c)
    }
}

proof fn lemma_scan_char_bounds(s: Seq<char>, i: int, c: char)
    requires
        0 <= i <= s.len(),
    ensures
        i <= scan_char(s, i, c) <= s.len(),
        forall|k: int| i <= k < scan_char(s, i, c) ==> s[k] != c,
        scan_char(s, i, c) < s.len() ==> s[scan_char(s, i, c)] == c,
    decreases s.len() - i,
{
    if i < s.len() && s[i] != c {
        lemma_scan_char_bounds(s, i + 1, c);
    }
}

/// First position of `c` in `v`, or its length.
pub fn find_char(v: &Vec<char>, c: char) -> (r: usize)
    ensures
        r == scan_char(v@, 0, c),
        r <= v@.len(),
        r < v@.len() ==> v@[r as int] == c,
        forall|k: int| 0 <= k < r ==> v@[k] != c,
{
    proof {
        lemma_scan_char_bounds(v@, 0, c);
    }
    let mut i: usize = 0;
    while i < v.len()
        invariant
            i <= v@.len(),
            scan_char(v@, 0, c) == scan_char(v@, i as int, c),
            forall|k: int| 0 <= k < i ==> v@[k] != c,
        decreases v@.len() - i,
    {
        if v[i] == c {
            return i;
        }
        i += 1;
    }
    i
}

/// A name/value pair split at the first `=`, the way `alias` and `export`
/// read their arguments.
pub open spec fn split_assignment(s: Seq<char>) -> Option<(Seq<char>, Seq<char>)> {
    let p = scan_char(s, 0, '=');
    if p < s.len() {
        Some((s.subrange(0, p), s.subrange(p + 1, s.len() as int)))
    } else {
        None
    }
}

/// What an `alias` invocation asks for.
pub enum AliasDirective {
    /// No argument: list the table.
    List,
    /// `alias name=value`: bind `name`.
    Bind { name: String, value: String },
    /// An argument without `=`: a usage error.
    Usage,
}

/// Reads the arguments of `alias`: none lists the table; otherwise the
/// arguments are joined with spaces and split at the first `=`.
pub fn parse_alias_args(tokens: &Vec<String>) -> (r: AliasDirective)
    ensures
        tokens@.len() < 2 ==> r is List,
        tokens@.len() >= 2 ==> {
            let joined = joined_from(tokens@.map_values(|t: String| t@), " "@, 1);
            match split_assignment(joined) {
                Some((n, v)) => r matches AliasDirective::Bind { name, value } && name@ == n
                    && value@ == v,
                None => r is Usage,
            }
        },
{
    if tokens.len() < 2 {
        return AliasDirective::List;
    }
    let joined = join_args(tokens, " ", 1);
    proof {
        lemma_scan_char_bounds(joined@, 0, '=');
    }
    let p = find_char(&joined, '=');
    if p < joined.len() {
        let name = subvec(&joined, 0, p);
        let value = subvec(&joined, p + 1, joined.len());
        AliasDirective::Bind { name: chars_string(&name), value: chars_string(&value) }
    } else {
        AliasDirective::Usage
    }
}

/// What an `export` invocation asks for.
pub enum ExportDirective {
    /// `export VAR=value`: set the variable.
    Bind { name: String, value: String },
    /// Anything else: a usage error.
    Usage,
}

/// Reads the arguments of `export`: the arguments are joined without a
/// separator and split at the first `=`.
pub fn parse_export_args(tokens: &Vec<String>) -> (r: ExportDirective)
    ensures
        tokens@.len() < 2 ==> r is Usage,
        tokens@.len() >= 2 ==> {
            let joined = joined_from(tokens@.map_values(|t: String| t@), ""@, 1);
            match split_assignment(joined) {
                Some((n, v)) => r matches ExportDirective::Bind { name, value } && name@ == n
                    && value@ == v,
                None => r is Usage,
            }
        },
{
    if tokens.len() < 2 {
        return ExportDirective::Usage;
    }
    let joined = join_args(tokens, "", 1);
    proof {
        lemma_scan_char_bounds(joined@, 0, '=');
    }
    let p = find_char(&joined, '=');
    if p < joined.len() {
        let name = subvec(&joined, 0, p);
        let value = subvec(&joined, p + 1, joined.len());
        ExportDirective::Bind { name: chars_string(&name), value: chars_string(&value) }
    } else {
        ExportDirective::Usage
    }
}

/// The outcome of `unalias`.
pub enum UnaliasOutcome {
    /// No name given: a usage error.
    Usage,
    /// The alias existed and is gone.
    Removed,
    /// No such alias.
    NotFound,
}

/// Runs `unalias`: removes the named alias from the table.
pub fn unalias_command(tokens: &Vec<String>, aliases: &mut StrTable) -> (r: UnaliasOutcome)
    requires
        old(aliases).wf(),
    ensures
        final(aliases).wf(),
        tokens@.len() < 2 ==> r is Usage && final(aliases)@ == old(aliases)@,
        tokens@.len() >= 2 ==> {
            &&& final(aliases)@ == old(aliases)@.remove(tokens@[1]@)
            &&& (r is Removed <==> old(aliases)@.contains_key(tokens@[1]@))
            &&& (r is NotFound <==> !old(aliases)@.contains_key(tokens@[1]@))
        },
{
    if tokens.len() < 2 {
        return UnaliasOutcome::Usage;
    }
    let name = str_chars(tokens[1].as_str());
    if aliases.remove(&name) {
        UnaliasOutcome::Removed
    } else {
        UnaliasOutcome::NotFound
    }
}

/// What `type` answers for a command name.
pub enum TypeResolution {
    /// The name is an alias of the carried replacement text.
    AliasOf { value: String },
    /// The name is a builtin.
    Builtin,
    /// Neither: the caller searches the system path.
    Unknown,
}

/// Resolves what a command name means: an alias first, then a builtin,
/// otherwise unknown (an executable lookup is the caller's business).
pub fn resolve_command_type(cmd: &str, aliases: &StrTable) -> (r: TypeResolution)
    requires
        aliases.wf(),
    ensures
        aliases@.contains_key(cmd@) ==> (r matches TypeResolution::AliasOf { value } && value@
            == aliases@[cmd@]),
        !aliases@.contains_key(cmd@) && builtin_of(cmd@) is Some ==> r is Builtin,
        !aliases@.contains_key(cmd@) && builtin_of(cmd@) is None ==> r is Unknown,
{
    let cc = str_chars(cmd);
    match aliases.get(&cc) {
        Some(v) => TypeResolution::AliasOf { value: v.clone() },
        None => {
            if classify_builtin(cmd).is_some() {
                TypeResolution::Builtin
            } else {
                TypeResolution::Unknown
            }
        },
    }
}

/// Whether `c` is a decimal digit.
pub open spec fn is_digit(c: char) -> bool {
    '0' <= c && c <= '9'
}

/// The value of a digit character.
pub open spec fn digit_val(c: char) -> int {
    c as int - '0' as int
}

/// The value of the digits of `s` from `i` on, accumulated onto `acc`.
pub open spec fn dec_val_at(s: Seq<char>, i: int, acc: int) -> int
    decreases s.len() - i,
    when 0 <= i
{
    if i >= s.len() {
        acc
    } else {
        dec_val_at(s, i + 1, acc * 10 + digit_val(s[i]))
    }
}

/// `s` with one leading sign character removed.
pub open spec fn sign_stripped(s: Seq<char>) -> Seq<char> {
    if s.len() > 0 && (s[0] == '-' || s[0] == '+') {
        s.drop_first()
    } else {
        s
    }
}

/// Every character of `s` is a decimal digit.
pub open spec fn all_digits(s: Seq<char>) -> bool {
    forall|k: int| 0 <= k < s.len() ==> is_digit(#[trigger] s[k])
}

/// The signed decimal number `s` spells, if it is well formed (an optional
/// sign, then digits only) and fits a 32-bit integer.
pub open spec fn parsed_i32(s: Seq<char>) -> Option<i32> {
    let neg = s.len() > 0 && s[0] == '-';
    let ds = sign_stripped(s);
    if ds.len() == 0 || !all_digits(ds) {
        None
    } else {
        let v = dec_val_at(ds, 0, 0);
        if neg && -v >= i32::MIN {
            Some((-v) as i32)
        } else if !neg && v <= i32::MAX {
            Some(v as i32)
        } else {
            None
        }
    }
}

proof fn lemma_dec_val_skip_zeros(s: Seq<char>, i: int, z: int)
    requires
        0 <= i <= z <= s.len(),
        forall|k: int| i <= k < z ==> s[k] == '0',
    ensures
        dec_val_at(s, i, 0) == dec_val_at(s, z, 0),
    decreases z - i,
{
    if i < z {
        lemma_dec_val_skip_zeros(s, i + 1, z);
    }
}

/// Ten to the `n`.
pub open spec fn pow10(n: nat) -> int
    decreases n,
{
    if n == 0 {
        1
    } else {
        10 * pow10((n - 1) as nat)
    }
}

proof fn lemma_pow10_pos(n: nat)
    ensures
        pow10(n) >= 1,
    decreases n,
{
    if n > 0 {
        lemma_pow10_pos((n - 1) as nat);
    }
}

proof fn lemma_pow10_mono(a: nat, b: nat)
    requires
        a <= b,
    ensures
        pow10(a) <= pow10(b),
        pow10(a) >= 1,
    decreases b,
{
    if a == b {
        lemma_pow10_pos(a);
    } else {
        lemma_pow10_mono(a, (b - 1) as nat);
        lemma_pow10_pos((b - 1) as nat);
        assert(pow10(b) == 10 * pow10((b - 1) as nat));
    }
}

proof fn lemma_dec_val_scale(s: Seq<char>, i: int, acc: int)
    requires
        0 <= i <= s.len(),
        acc >= 1,
        forall|k: int| i <= k < s.len() ==> is_digit(#[trigger] s[k]),
    ensures
        dec_val_at(s, i, acc) >= acc * pow10((s.len() - i) as nat),
    decreases s.len() - i,
{
    if i >= s.len() {
        assert(pow10(0) == 1);
    } else {
        assert(is_digit(s[i]));
        assert(digit_val(s[i]) >= 0);
        let acc2 = acc * 10 + digit_val(s[i]);
        assert(acc2 == acc * 10 + digit_val(s[i]));
        assert(acc2 >= acc * 10) by (nonlinear_arith)
            requires
                acc2 == acc * 10 + digit_val(s[i]) && digit_val(s[i]) >= 0,
        ;
        lemma_dec_val_scale(s, i + 1, acc2);
        lemma_pow10_pos((s.len() - i - 1) as nat);
        assert(acc2 * pow10((s.len() - i - 1) as nat) >= acc * pow10((s.len() - i) as nat))
            by (nonlinear_arith)
            requires
                acc2 >= acc * 10 && pow10((s.len() - i) as nat) == 10 * pow10(
                    (s.len() - i - 1) as nat,
                ) && pow10((s.len() - i - 1) as nat) >= 1 && acc >= 1,
        ;
    }
}

proof fn lemma_dec_val_lower(s: Seq<char>, i: int)
    requires
        0 <= i < s.len(),
        forall|k: int| i <= k < s.len() ==> is_digit(#[trigger] s[k]),
        s[i] != '0',
    ensures
        dec_val_at(s, i, 0) >= pow10((s.len() - i - 1) as nat),
    decreases s.len() - i,
{
    assert(digit_val(s[i]) >= 1);
    lemma_dec_val_scale(s, i + 1, digit_val(s[i]));
    lemma_pow10_pos((s.len() - i - 1) as nat);
    assert(digit_val(s[i]) * pow10((s.len() - i - 1) as nat) >= pow10((s.len() - i - 1) as nat))
        by (nonlinear_arith)
        requires
            digit_val(s[i]) >= 1 && pow10((s.len() - i - 1) as nat) >= 1,
    ;
}

/// Parses a signed 32-bit decimal integer: an optional `+` or `-`, then
/// digits only; anything else, or a value out of range, is `None`.
pub fn parse_i32(s: &str) -> (r: Option<i32>)
    ensures
        r == parsed_i32(s@),
{
    let sc = str_chars(s);
    let (neg, start): (bool, usize) = if sc.len() > 0 && sc[0] == '-' {
        (true, 1)
    } else if sc.len() > 0 && sc[0] == '+' {
        (false, 1)
    } else {
        (false, 0)
    };
    let ghost ds = sign_stripped(s@);
    proof {
        assert(ds =~= sc@.subrange(start as int, sc@.len() as int));
    }
    if sc.len() == start {
        return None;
    }
    let mut k: usize = start;
    while k < sc.len()
        invariant
            start <= k <= sc@.len(),
            sc@ == s@,
            ds == sign_stripped(s@),
            ds == sc@.subrange(start as int, sc@.len() as int),
            forall|j: int| start <= j < k ==> is_digit(#[trigger] sc@[j]),
        decreases sc@.len() - k,
    {
        let c = sc[k];
        if !('0' <= c && c <= '9') {
            proof {
                assert(ds[k - start] == sc@[k as int]);
                assert(!is_digit(ds[k - start]));
                assert(!all_digits(sign_stripped(s@)));
            }
            return None;
        }
        k += 1;
    }
    proof {
        assert(forall|j: int|
            0 <= j < ds.len() ==> is_digit(#[trigger] ds[j]) && ds[j] == sc@[j + start]);
    }
    let mut z: usize = start;
    while z < sc.len() && sc[z] == '0'
        invariant
            start <= z <= sc@.len(),
            sc@ == s@,
            ds == sign_stripped(s@),
            ds == sc@.subrange(start as int, sc@.len() as int),
            forall|j: int| start <= j < sc@.len() ==> is_digit(#[trigger] sc@[j]),
            forall|j: int| start <= j < z ==> sc@[j] == '0',
        decreases sc@.len() - z,
    {
        z += 1;
    }
    proof {
        assert(forall|j: int| 0 <= j < z - start ==> ds[j] == '0');
        lemma_dec_val_skip_zeros(ds, 0, z - start);
    }
    if sc.len() - z > 10 {
        proof {
            lemma_dec_val_lower(ds, z - start);
            lemma_pow10_mono(10, (ds.len() - (z - start) - 1) as nat);
            assert(pow10(10) == 10000000000) by {
                reveal_with_fuel(pow10, 12);
            }
        }
        return None;
    }
    let mut v: u64 = 0;
    let mut i: usize = z;
    proof {
        assert(pow10(0) == 1);
    }
    while i < sc.len()
        invariant
            start <= z <= i <= sc@.len(),
            sc@.len() - z <= 10,
            sc@ == s@,
            ds == sign_stripped(s@),
            neg == (s@.len() > 0 && s@[0] == '-'),
            ds == sc@.subrange(start as int, sc@.len() as int),
            forall|j: int| start <= j < sc@.len() ==> is_digit(#[trigger] sc@[j]),
            dec_val_at(ds, 0, 0) == dec_val_at(ds, i - start, v as int),
            v as int <= pow10((i - z) as nat) - 1,
        decreases sc@.len() - i,
    {
        let c = sc[i];
        proof {
            assert(sc@[i as int] == c);
            assert(is_digit(c));
            lemma_pow10_mono((i - z) as nat, 9);
            assert(pow10(9) == 1000000000) by {
                reveal_with_fuel(pow10, 11);
            }
            assert(ds[i - start] == c);
        }
        let d: u64 = (c as u32 as u64) - ('0' as u32 as u64);
        proof {
            assert(d as int == digit_val(c));
        }
        v = v * 10 + d;
        i += 1;
        proof {
            assert(pow10((i - z) as nat) == 10 * pow10((i - z - 1) as nat));
        }
    }
    proof {
        assert(dec_val_at(ds, i - start, v as int) == v as int);
        assert(dec_val_at(ds, 0, 0) == v as int);
        lemma_pow10_mono((i - z) as nat, 10);
        assert(pow10(10) == 10000000000) by {
            reveal_with_fuel(pow10, 12);
        }
    }
    if neg {
        if v > 2147483648 {
            None
        } else {
            Some((-(v as i64)) as i32)
        }
    } else {
        if v > 2147483647 {
            None
        } else {
            Some(v as i32)
        }
    }
}

} // verus!
