use vstd::prelude::*;
use crate::text::{has_prefix, push_char, starts_with, trim_text, trimmed};
use crate::unique_name::{contains_name, name_views};
use crate::settings::{push_component, push_component_exec};

verus! {

/// The vaults known to the server: the default one and the list of all.
pub struct Vaults {
    default: String,
    vaults: Vec<String>,
}

/// `kept` is `all` without the entries whose flag is false, in order.
pub open spec fn flagged(all: Seq<Seq<char>>, flags: Seq<bool>) -> Seq<Seq<char>>
    decreases all.len(),
{
    if all.len() == 0 || flags.len() == 0 {
        Seq::empty()
    } else if flags.last() {
        flagged(all.drop_last(), flags.drop_last()).push(all.last())
    } else {
        flagged(all.drop_last(), flags.drop_last())
    }
}

/// The directory that marks a vault: `<vault>/.karta`.
pub open spec fn karta_marker(vault: Seq<char>) -> Seq<char> {
    push_component(vault, ".karta"@)
}

/// The path of the `.karta` directory that marks `vault` as a vault; a
/// vault whose marker is gone is dropped from the list (see `Vaults::get`).
pub fn karta_marker_path(vault: &str) -> (res: String)
    ensures
        res@ == karta_marker(vault@),
{
    let mut path = String::from_str(vault);
    push_component_exec(&mut path, ".karta");
    path
}

/// Keeps the entries of `all` whose flag is set.
pub fn retain_flagged(all: Vec<String>, flags: &Vec<bool>) -> (res: Vec<String>)
    requires
        flags@.len() == all@.len(),
    ensures
        name_views(res@) == flagged(name_views(all@), flags@),
{
    let mut out: Vec<String> = Vec::new();
    let mut i: usize = 0;
    let n = all.len();
    while i < n
        invariant
            n == all@.len() == flags@.len(),
            i <= n,
            name_views(out@) == flagged(name_views(all@).subrange(0, i as int), flags@.subrange(0, i as int)),
        decreases n - i,
    {
        proof {
            assert(name_views(all@).subrange(0, i + 1).drop_last() =~= name_views(all@).subrange(0, i as int));
            assert(flags@.subrange(0, i + 1).drop_last() =~= flags@.subrange(0, i as int));
        }
        if flags[i] {
            let ghost before = out@;
            out.push(all[i].clone());
            assert(name_views(out@) =~= name_views(before).push(all@[i as int]@));
        }
        i = i + 1;
    }
    proof {
        assert(name_views(all@).subrange(0, n as int) =~= name_views(all@));
        assert(flags@.subrange(0, n as int) =~= flags@);
    }
    out
}

impl Vaults {
    /// The default vault.
    pub closed spec fn default_view(&self) -> Seq<char> {
        self.default@
    }

    /// The known vaults, in order.
    pub closed spec fn vaults_view(&self) -> Seq<Seq<char>> {
        name_views(self.vaults@)
    }

    /// No vault known and no default.
    pub fn new() -> (res: Self)
        ensures
            res.default_view() == Seq::<char>::empty(),
            res.vaults_view() == Seq::<Seq<char>>::empty(),
    {
        let v = Vaults { default: String::new(), vaults: Vec::new() };
        assert(name_views(v.vaults@) =~= Seq::<Seq<char>>::empty());
        v
    }

    /// The configuration with the given default and list.
    pub fn from_parts(default: String, vaults: Vec<String>) -> (res: Self)
        ensures
            res.default_view() == default@,
            res.vaults_view() == name_views(vaults@),
    {
        Vaults { default, vaults }
    }

    /// The default vault.
    pub fn default_vault(&self) -> (res: &String)
        ensures
            res@ == self.default_view(),
    {
        &self.default
    }

    /// The list as it stands, without checking the disk.
    pub fn list(&self) -> (res: &Vec<String>)
        ensures
            name_views(res@) == self.vaults_view(),
    {
        &self.vaults
    }

    /// Drops every vault whose `.karta` directory is gone: `present[i]`
    /// tells whether the marker (see `karta_marker_path`) of the `i`-th
    /// listed vault exists on disk.
    fn clean_vaults(&mut self, present: &Vec<bool>)
        requires
            present@.len() == old(self).vaults_view().len(),
        ensures
            final(self).default_view() == old(self).default_view(),
            final(self).vaults_view() == flagged(old(self).vaults_view(), present@),
    {
        let mut all: Vec<String> = Vec::new();
        std::mem::swap(&mut all, &mut self.vaults);
        self.vaults = retain_flagged(all, present);
    }

    /// The vaults that still hold a `.karta` directory; the others are
    /// dropped from the list first. `present[i]` tells whether the marker
    /// (see `karta_marker_path`) of the `i`-th listed vault exists on disk.
    pub fn get(&mut self, present: &Vec<bool>) -> (res: &Vec<String>)
        requires
            present@.len() == old(self).vaults_view().len(),
        ensures
            final(self).default_view() == old(self).default_view(),
            final(self).vaults_view() == flagged(old(self).vaults_view(), present@),
            name_views(res@) == final(self).vaults_view(),
    {
        self.clean_vaults(present);
        &self.vaults
    }

    /// Makes `vault_path` the default and adds it to the list when it is
    /// not there yet. Tells whether it was added; a vault that is added
    /// needs its `.karta` directory.
    pub fn add_vault(&mut self, vault_path: &str) -> (added: bool)
        ensures
            final(self).default_view() == vault_path@,
            added == !old(self).vaults_view().contains(vault_path@),
            final(self).vaults_view() == if added {
                old(self).vaults_view().push(vault_path@)
            } else {
                old(self).vaults_view()
            },
    {
        self.default = String::from_str(vault_path);
        if contains_name(&self.vaults, vault_path) {
            return false;
        }
        let ghost before = self.vaults@;
        self.vaults.push(String::from_str(vault_path));
        assert(name_views(self.vaults@) =~= name_views(before).push(vault_path@));
        true
    }
}

/// The value of a string of decimal digits.
pub open spec fn digits_value(s: Seq<char>) -> nat
    decreases s.len(),
{
    if s.len() == 0 {
        0
    } else {
        digits_value(s.drop_last()) * 10 + (s.last() as int - '0' as int) as nat
    }
}

/// Every character is an ASCII decimal digit.
pub open spec fn all_digits(s: Seq<char>) -> bool {
    forall|i: int| 0 <= i < s.len() ==> '0' <= #[trigger] s[i] <= '9'
}

/// The parse of a text as a `usize`: an optional `+` followed by at least
/// one decimal digit and nothing else, whose value fits in a `usize`.
pub open spec fn parsed_usize(s: Seq<char>) -> Option<usize> {
    let digits = if s.len() > 0 && s[0] == '+' { s.drop_first() } else { s };
    if digits.len() > 0 && all_digits(digits) && digits_value(digits) <= usize::MAX {
        Some(digits_value(digits) as usize)
    } else {
        None
    }
}

/// A prefix of a string of digits has no greater value than the string.
proof fn lemma_digits_value_prefix(s: Seq<char>, i: int)
    requires
        0 <= i <= s.len(),
        all_digits(s),
    ensures
        digits_value(s.subrange(0, i)) <= digits_value(s),
    decreases s.len() - i,
{
    if i < s.len() {
        let init = s.drop_last();
        assert forall|j: int| 0 <= j < init.len() implies '0' <= #[trigger] init[j] <= '9' by {
            assert(init[j] == s[j]);
        }
        lemma_digits_value_prefix(init, i);
        assert(init.subrange(0, i) =~= s.subrange(0, i));
        assert(digits_value(s) == digits_value(init) * 10 + (s.last() as int - '0' as int) as nat);
        assert('0' <= s[s.len() - 1] <= '9');
    } else {
        assert(s.subrange(0, i) =~= s);
    }
}

/// The text read as a `usize`, as `str::parse::<usize>` reads it; see
/// `parsed_usize`.
fn parse_usize(s: &str) -> (res: Option<usize>)
    ensures
        res == parsed_usize(s@),
{
    let n = s.unicode_len();
    let start: usize = if n > 0 && s.get_char(0) == '+' { 1 } else { 0 };
    let ghost digits = if s@.len() > 0 && s@[0] == '+' { s@.drop_first() } else { s@ };
    assert(digits =~= s@.subrange(start as int, n as int));
    if start == n {
        return None;
    }
    let mut value: usize = 0;
    let mut i: usize = start;
    while i < n
        invariant
            start <= i <= n == s@.len(),
            start < n,
            digits == s@.subrange(start as int, n as int),
            digits == (if s@.len() > 0 && s@[0] == '+' { s@.drop_first() } else { s@ }),
            all_digits(digits.subrange(0, i - start)),
            value == digits_value(digits.subrange(0, i - start)),
        decreases n - i,
    {
        let c = s.get_char(i);
        let ghost k = i - start;
        assert(digits[k] == c);
        assert(digits.subrange(0, k + 1).drop_last() =~= digits.subrange(0, k));
        if c < '0' || c > '9' {
            assert(!('0' <= digits[k] <= '9'));
            assert(!all_digits(digits));
            assert(parsed_usize(s@) is None);
            return None;
        }
        let d = (c as u32 - '0' as u32) as usize;
        assert(digits_value(digits.subrange(0, k + 1)) == value * 10 + d);
        assert forall|j: int| 0 <= j < k + 1 implies '0' <= #[trigger] digits.subrange(0, k + 1)[j] <= '9' by {
            if j < k {
                assert(digits.subrange(0, k + 1)[j] == digits.subrange(0, k)[j]);
            }
        }
        let next = match value.checked_mul(10) {
            Some(v) => v.checked_add(d),
            None => None,
        };
        match next {
            Some(v) => {
                value = v;
            },
            None => {
                proof {
                    assert(value * 10 + d > usize::MAX);
                    if all_digits(digits) {
                        lemma_digits_value_prefix(digits, k + 1);
                        assert(digits_value(digits) > usize::MAX);
                    }
                    assert(parsed_usize(s@) is None);
                }
                return None;
            },
        }
        i = i + 1;
    }
    assert(digits.subrange(0, n - start) =~= digits);
    Some(value)
}

/// What the operator asked for when picking a vault.
#[derive(PartialEq, Eq, Debug)]
pub enum VaultChoice {
    /// Empty input: leave.
    Exit,
    /// The number of a listed vault.
    Listed(usize),
    /// A number that is not in the list.
    UnknownNumber(usize),
    /// A typed path, made absolute by a leading `/`.
    Typed(String),
}

/// The choice for a line typed at the vault prompt, given how many vaults
/// are listed: the line is trimmed; empty means leave; a number picks a
/// listed vault (or is refused); anything else is a path, with `/` put in
/// front when it lacks one.
pub open spec fn vault_choice(line: Seq<char>, listed: usize) -> VaultChoiceView {
    let input = trimmed(line);
    if input.len() == 0 {
        VaultChoiceView::Exit
    } else {
        match parsed_usize(input) {
            Some(n) => if n < listed { VaultChoiceView::Listed(n) } else { VaultChoiceView::UnknownNumber(n) },
            None => VaultChoiceView::Typed(if has_prefix(input, seq!['/']) { input } else { seq!['/'] + input }),
        }
    }
}

/// The view of a `VaultChoice`.
pub enum VaultChoiceView {
    Exit,
    Listed(usize),
    UnknownNumber(usize),
    Typed(Seq<char>),
}

impl View for VaultChoice {
    type V = VaultChoiceView;

    open spec fn view(&self) -> VaultChoiceView {
        match self {
            VaultChoice::Exit => VaultChoiceView::Exit,
            VaultChoice::Listed(n) => VaultChoiceView::Listed(*n),
            VaultChoice::UnknownNumber(n) => VaultChoiceView::UnknownNumber(*n),
            VaultChoice::Typed(s) => VaultChoiceView::Typed(s@),
        }
    }
}

fn append_str(out: &mut String, s: &str)
    ensures
        final(out)@ == old(out)@ + s@,
{
    out.append(s);
}

/// Interprets a line typed at the vault prompt; see `vault_choice`.
pub fn choose_vault(line: &str, listed: usize) -> (res: VaultChoice)
    ensures
        res@ == vault_choice(line@, listed),
{
    let input = trim_text(line);
    if input.unicode_len() == 0 {
        return VaultChoice::Exit;
    }
    match parse_usize(input) {
        Some(n) => {
            if n < listed {
                VaultChoice::Listed(n)
            } else {
                VaultChoice::UnknownNumber(n)
            }
        },
        None => {
            proof {
                reveal_strlit("/");
            }
            assert("/"@ =~= seq!['/']);
            let mut path = String::new();
            if !starts_with(input, "/") {
                push_char(&mut path, '/');
            }
            append_str(&mut path, input);
            assert(path@ =~= (if has_prefix(input@, seq!['/']) { input@ } else { seq!['/'] + input@ }));
            VaultChoice::Typed(path)
        },
    }
}

} // verus!
