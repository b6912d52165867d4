use vstd::prelude::*;
use crate::text::{find_last_char, has_prefix, last_index_of, lemma_last_index_of, lemma_last_index_of_unique, push_char, same_text, starts_with};

verus! {

/// The alias of the virtual root of the graph.
pub open spec fn root_alias() -> Seq<char> {
    seq!['/']
}

/// The alias of the user's vault, the only part of the graph that mirrors
/// the filesystem.
pub open spec fn vault_alias() -> Seq<char> {
    seq!['/', 'v', 'a', 'u', 'l', 't']
}

/// The alias is the vault or lies below it.
pub open spec fn within_vault(a: Seq<char>) -> bool {
    a == vault_alias() || has_prefix(a, vault_alias() + seq!['/'])
}

/// An alias names a node by its path from the virtual root, starting with `/`.
pub open spec fn alias_wf(a: Seq<char>) -> bool {
    a.len() >= 1 && a[0] == '/'
}

/// The alias of the child `name` of the node with alias `a`.
pub open spec fn join_alias(a: Seq<char>, name: Seq<char>) -> Seq<char> {
    if a == root_alias() {
        root_alias() + name
    } else {
        a + seq!['/'] + name
    }
}

/// The alias of the parent of `a`; the root has none.
pub open spec fn parent_alias(a: Seq<char>) -> Option<Seq<char>> {
    if a == root_alias() {
        None
    } else {
        match last_index_of(a, '/') {
            Some(k) => if k == 0 { Some(root_alias()) } else { Some(a.subrange(0, k)) },
            None => None,
        }
    }
}

/// The last segment of `a` (empty for the root).
pub open spec fn alias_name(a: Seq<char>) -> Seq<char> {
    match last_index_of(a, '/') {
        Some(k) => a.subrange(k + 1, a.len() as int),
        None => a,
    }
}

/// A single path segment: not empty and without `/`.
pub open spec fn segment_wf(name: Seq<char>) -> bool {
    name.len() >= 1 && forall|i: int| 0 <= i < name.len() ==> name[i] != '/'
}

/// Normalised alias for a user-supplied path: a missing leading `/` is added
/// and one trailing `/` is dropped.
pub open spec fn normalize_alias(s: Seq<char>) -> Seq<char> {
    let t = if s.len() >= 1 && s[0] == '/' { s } else { seq!['/'] + s };
    if t.len() > 1 && t.last() == '/' { t.drop_last() } else { t }
}

/// The path of a node relative to the vault directory (`""` for the vault
/// itself), for aliases inside the vault.
pub open spec fn vault_relative(a: Seq<char>) -> Option<Seq<char>> {
    if a == vault_alias() {
        Some(Seq::empty())
    } else if has_prefix(a, vault_alias() + seq!['/']) {
        Some(a.subrange(7, a.len() as int))
    } else {
        None
    }
}

/// Alias for a path given relative to the graph root without a leading `/`:
/// the empty path is the root, `vault` and paths under it are taken as
/// they are, and anything else is placed under the vault.
pub open spec fn alias_from_relative(s: Seq<char>) -> Seq<char> {
    if s.len() == 0 {
        root_alias()
    } else if s == "vault"@ || has_prefix(s, "vault/"@) {
        seq!['/'] + s
    } else {
        vault_alias() + seq!['/'] + s
    }
}

/// The path of a node in the graph, held as its alias.
pub struct NodePath {
    alias: String,
}

impl View for NodePath {
    type V = Seq<char>;

    closed spec fn view(&self) -> Seq<char> {
        self.alias@
    }
}

fn append_str(out: &mut String, s: &str)
    ensures
        final(out)@ == old(out)@ + s@,
{
    out.append(s);
}

impl NodePath {
    /// Well-formedness: the alias starts with `/`.
    pub open spec fn wf(&self) -> bool {
        alias_wf(self@)
    }

    /// The virtual root.
    pub fn root() -> (res: Self)
        ensures
            res@ == root_alias(),
    {
        let mut alias = String::new();
        push_char(&mut alias, '/');
        NodePath { alias }
    }

    /// The vault node.
    pub fn vault() -> (res: Self)
        ensures
            res@ == vault_alias(),
    {
        let alias = String::from_str("/vault");
        proof {
            reveal_strlit("/vault");
        }
        assert(alias@ =~= vault_alias());
        NodePath { alias }
    }

    /// Path for an alias as typed by a client; see `normalize_alias`.
    pub fn from_alias(s: &str) -> (res: Self)
        ensures
            res@ == normalize_alias(s@),
            res.wf(),
    {
        let mut alias = String::new();
        let n = s.unicode_len();
        if n == 0 || s.get_char(0) != '/' {
            push_char(&mut alias, '/');
        }
        append_str(&mut alias, s);
        let ghost t = alias@;
        assert(t =~= (if s@.len() >= 1 && s@[0] == '/' { s@ } else { seq!['/'] + s@ }));
        let m = alias.as_str().unicode_len();
        if m > 1 && alias.as_str().get_char(m - 1) == '/' {
            let trimmed = String::from_str(alias.as_str().substring_char(0, m - 1));
            assert(trimmed@ =~= t.drop_last());
            return NodePath { alias: trimmed };
        }
        NodePath { alias }
    }

    /// Path for a vault-relative or root-relative path; see `alias_from_relative`.
    pub fn from_relative(s: &str) -> (res: Self)
        ensures
            res@ == alias_from_relative(s@),
            res.wf(),
    {
        let n = s.unicode_len();
        let mut alias = String::new();
        push_char(&mut alias, '/');
        if n == 0 {
            return NodePath { alias };
        }
        let is_vault = same_text(s, "vault");
        let under_vault = starts_with(s, "vault/");
        if !is_vault && !under_vault {
            append_str(&mut alias, "vault/");
        }
        append_str(&mut alias, s);
        proof {
            reveal_strlit("vault");
            reveal_strlit("vault/");
        }
        assert(alias@ =~= alias_from_relative(s@));
        NodePath { alias }
    }

    /// The path whose alias is the text of `alias` (the receiver is discarded).
    pub fn with_alias_of(self, alias: &String) -> (res: Self)
        ensures
            res@ == alias@,
    {
        let _ = self;
        NodePath { alias: alias.clone() }
    }

    /// A copy of the path.
    pub fn duplicate(&self) -> (res: Self)
        ensures
            res@ == self@,
    {
        NodePath { alias: self.alias.clone() }
    }

    /// The alias text.
    pub fn alias(&self) -> (res: String)
        ensures
            res@ == self@,
    {
        self.alias.clone()
    }

    /// The alias, borrowed.
    pub fn alias_str(&self) -> (res: &str)
        ensures
            res@ == self@,
    {
        self.alias.as_str()
    }

    /// Whether this is the virtual root.
    pub fn is_root(&self) -> (res: bool)
        ensures
            res == (self@ == root_alias()),
    {
        let r = same_text(self.alias.as_str(), "/");
        proof {
            reveal_strlit("/");
        }
        assert("/"@ =~= root_alias());
        r
    }

    /// Whether this is the vault node.
    pub fn is_vault(&self) -> (res: bool)
        ensures
            res == (self@ == vault_alias()),
    {
        let r = same_text(self.alias.as_str(), "/vault");
        proof {
            reveal_strlit("/vault");
        }
        assert("/vault"@ =~= vault_alias());
        r
    }

    /// Whether this is the vault or a node below it.
    pub fn is_within_vault(&self) -> (res: bool)
        ensures
            res == within_vault(self@),
    {
        proof {
            reveal_strlit("/vault/");
        }
        assert("/vault/"@ =~= vault_alias() + seq!['/']);
        self.is_vault() || starts_with(self.alias.as_str(), "/vault/")
    }

    /// The path of the child called `name`.
    pub fn join(&self, name: &str) -> (res: Self)
        ensures
            res@ == join_alias(self@, name@),
    {
        let mut alias = self.alias.clone();
        if !self.is_root() {
            push_char(&mut alias, '/');
        }
        append_str(&mut alias, name);
        assert(alias@ =~= join_alias(self@, name@));
        NodePath { alias }
    }

    /// The parent path; `None` for the root.
    pub fn parent(&self) -> (res: Option<Self>)
        ensures
            match res {
                Some(p) => parent_alias(self@) == Some(p@),
                None => parent_alias(self@) is None,
            },
    {
        if self.is_root() {
            return None;
        }
        match find_last_char(self.alias.as_str(), '/') {
            Some(k) => {
                proof {
                    lemma_last_index_of(self@, '/');
                }
                if k == 0 {
                    Some(NodePath::root())
                } else {
                    Some(NodePath { alias: String::from_str(self.alias.as_str().substring_char(0, k)) })
                }
            },
            None => None,
        }
    }

    /// The last segment of the path.
    pub fn name(&self) -> (res: String)
        ensures
            res@ == alias_name(self@),
    {
        match find_last_char(self.alias.as_str(), '/') {
            Some(k) => {
                proof {
                    lemma_last_index_of(self@, '/');
                }
                let n = self.alias.as_str().unicode_len();
                String::from_str(self.alias.as_str().substring_char(k + 1, n))
            },
            None => self.alias.clone(),
        }
    }

    /// The path relative to the vault directory, for paths inside the vault.
    pub fn strip_vault_prefix(&self) -> (res: Option<String>)
        ensures
            match res {
                Some(r) => vault_relative(self@) == Some(r@),
                None => vault_relative(self@) is None,
            },
    {
        proof {
            reveal_strlit("/vault/");
        }
        assert("/vault/"@ =~= vault_alias() + seq!['/']);
        if self.is_vault() {
            Some(String::new())
        } else if starts_with(self.alias.as_str(), "/vault/") {
            let n = self.alias.as_str().unicode_len();
            Some(String::from_str(self.alias.as_str().substring_char(7, n)))
        } else {
            None
        }
    }
}

/// Joining a segment and taking the parent gives back the path, and the
/// joined path's name is the segment.
pub proof fn lemma_join_parent_name(a: Seq<char>, name: Seq<char>)
    requires
        alias_wf(a),
        segment_wf(name),
    ensures
        parent_alias(join_alias(a, name)) == Some(a),
        alias_name(join_alias(a, name)) == name,
{
    let j = join_alias(a, name);
    if a == root_alias() {
        assert(j[0] == '/');
        lemma_last_index_of_unique(j, '/', 0);
        assert(j != root_alias()) by {
            assert(j.len() >= 2);
        }
        assert(j.subrange(1, j.len() as int) =~= name);
    } else {
        let k = a.len() as int;
        assert(j[k] == '/');
        assert forall|i: int| k < i < j.len() implies j[i] != '/' by {
            assert(j[i] == name[i - k - 1]);
        }
        lemma_last_index_of_unique(j, '/', k);
        assert(j != root_alias()) by {
            assert(j.len() >= 3);
        }
        assert(j.subrange(0, k) =~= a);
        assert(j.subrange(k + 1, j.len() as int) =~= name);
        assert(k != 0);
    }
}

} // verus!

verus! {

/// A non-empty relative path always resolves to the vault or below it.
pub proof fn lemma_relative_alias_in_vault(s: Seq<char>)
    requires
        s.len() > 0,
    ensures
        vault_relative(alias_from_relative(s)) is Some,
{
    reveal_strlit("vault");
    reveal_strlit("vault/");
    let a = alias_from_relative(s);
    let vp = vault_alias() + seq!['/'];
    if s == "vault"@ {
        assert(a =~= vault_alias());
    } else if has_prefix(s, "vault/"@) {
        assert(a.subrange(0, 7) =~= seq!['/'] + s.subrange(0, 6));
        assert(a.subrange(0, 7) =~= vp);
    } else {
        assert(a.subrange(0, 7) =~= vp);
    }
}

} // verus!
