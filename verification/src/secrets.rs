//! Secret scoping: which modules may read which secret keys, and the
//! environment-variable naming of the environment provider.

use vstd::prelude::*;

use crate::text::{push_str, to_chars};

verus! {

broadcast use vstd::string::group_string_axioms;

/// Why a secret could not be read.
#[derive(Debug)]
pub enum SecretError {
    NotFound(String),
    AccessDenied { module: String, key: String },
    Provider(String),
}

/// `c` upper-cased if it is an ASCII letter.
pub open spec fn ascii_upper(c: char) -> char {
    if 'a' <= c && c <= 'z' {
        ((c as u32) - 32) as char
    } else {
        c
    }
}

/// The result of `str::to_uppercase` (Unicode upper-casing).
pub uninterp spec fn unicode_uppercase(s: Seq<char>) -> Seq<char>;

/// Upper-cases a string (`str::to_uppercase`).
///
/// Trusted: claims that the result is a function of the input alone, and that
/// on ASCII input it upper-cases each letter and keeps the other characters;
/// what the Unicode case mapping does to other characters is left unsaid.
#[verifier::external_body]
fn to_uppercase(s: &str) -> (r: String)
    ensures
        r@ == unicode_uppercase(s@),
        vstd::string::is_ascii(s) ==> r@ == s@.map_values(|c: char| ascii_upper(c)),
{
    s.to_uppercase()
}

/// A provider that reads secrets from environment variables named by a
/// prefix and the upper-cased key.
#[derive(Debug, Clone)]
pub struct EnvSecretProvider {
    prefix: String,
}

impl EnvSecretProvider {
    /// The prefix of the variable names.
    pub closed spec fn spec_prefix(&self) -> Seq<char> {
        self.prefix@
    }

    /// A provider with the prefix `LLMOS_SECRET_`.
    pub fn new() -> (p: EnvSecretProvider)
        ensures
            p.spec_prefix() == "LLMOS_SECRET_"@,
    {
        EnvSecretProvider { prefix: String::from_str("LLMOS_SECRET_") }
    }

    /// A provider with a custom prefix.
    pub fn with_prefix(prefix: &str) -> (p: EnvSecretProvider)
        ensures
            p.spec_prefix() == prefix@,
    {
        EnvSecretProvider { prefix: prefix.to_owned() }
    }

    /// The environment variable name for a key: the prefix followed by the
    /// upper-cased key.
    pub fn resolve_key(&self, key: &str) -> (r: String)
        ensures
            r@ == self.spec_prefix() + unicode_uppercase(key@),
            vstd::string::is_ascii(key) ==> r@ == self.spec_prefix() + key@.map_values(
                |c: char| ascii_upper(c),
            ),
    {
        let mut r = self.prefix.clone();
        let up = to_uppercase(key);
        push_str(&mut r, up.as_str());
        r
    }
}

/// Lexicographic order of character sequences (code-point order, which is
/// also the byte order of their UTF-8 encodings).
pub open spec fn lex_lt(a: Seq<char>, b: Seq<char>) -> bool
    decreases a.len(),
{
    if b.len() == 0 {
        false
    } else if a.len() == 0 {
        true
    } else if a[0] != b[0] {
        a[0] < b[0]
    } else {
        lex_lt(a.drop_first(), b.drop_first())
    }
}

/// `lex_lt` is irreflexive.
pub proof fn lemma_lex_irreflexive(a: Seq<char>)
    ensures
        !lex_lt(a, a),
    decreases a.len(),
{
    if a.len() > 0 {
        lemma_lex_irreflexive(a.drop_first());
    }
}

/// `lex_lt` is a strict total order.
pub proof fn lemma_lex_trichotomy(a: Seq<char>, b: Seq<char>)
    ensures
        lex_lt(a, b) || lex_lt(b, a) || a == b,
        !(lex_lt(a, b) && lex_lt(b, a)),
        !lex_lt(a, a),
    decreases a.len(),
{
    lemma_lex_irreflexive(a);
    if a.len() > 0 && b.len() > 0 {
        lemma_lex_trichotomy(a.drop_first(), b.drop_first());
        if a[0] == b[0] && a.drop_first() == b.drop_first() {
            assert forall|i: int| 0 <= i < a.len() implies a[i] == b[i] by {
                if i > 0 {
                    assert(a[i] == a.drop_first()[i - 1]);
                    assert(b[i] == b.drop_first()[i - 1]);
                }
            }
            assert(a =~= b);
        }
    } else if a.len() == 0 && b.len() == 0 {
        assert(a =~= b);
    }
}

/// `lex_lt` is transitive.
pub proof fn lemma_lex_transitive(a: Seq<char>, b: Seq<char>, c: Seq<char>)
    requires
        lex_lt(a, b),
        lex_lt(b, c),
    ensures
        lex_lt(a, c),
    decreases a.len(),
{
    if a.len() > 0 && b.len() > 0 && c.len() > 0 && a[0] == b[0] && b[0] == c[0] {
        lemma_lex_transitive(a.drop_first(), b.drop_first(), c.drop_first());
    }
}

/// Whether `a` comes before `b` in lexicographic order.
pub fn lex_less(a: &Vec<char>, b: &Vec<char>) -> (r: bool)
    ensures
        r == lex_lt(a@, b@),
{
    let mut i: usize = 0;
    assert(a@.skip(0) =~= a@);
    assert(b@.skip(0) =~= b@);
    while i < a.len() && i < b.len()
        invariant
            i <= a.len(),
            i <= b.len(),
            forall|j: int| 0 <= j < i ==> a@[j] == b@[j],
            lex_lt(a@, b@) == lex_lt(a@.skip(i as int), b@.skip(i as int)),
        decreases a.len() - i,
    {
        if a[i] != b[i] {
            assert(a@.skip(i as int)[0] == a@[i as int]);
            assert(b@.skip(i as int)[0] == b@[i as int]);
            return a[i] < b[i];
        }
        assert(a@.skip(i as int).drop_first() =~= a@.skip(i + 1));
        assert(b@.skip(i as int).drop_first() =~= b@.skip(i + 1));
        i += 1;
    }
    i < b.len()
}

/// A registered secret: its key and the modules allowed to read it.
#[derive(Debug, Clone)]
pub struct SecretEntry {
    pub key: String,
    pub allowed_modules: Vec<String>,
}

/// Keys strictly increasing along the entries.
pub open spec fn sorted_keys(entries: Seq<SecretEntry>) -> bool {
    forall|i: int, j: int|
        0 <= i < j < entries.len() ==> lex_lt(#[trigger] entries[i].key@, #[trigger] entries[j].key@)
}

/// The characters of each module name.
pub open spec fn module_views(v: Seq<String>) -> Seq<Seq<char>> {
    v.map_values(|s: String| s@)
}

/// Access-control metadata for secrets, and the provider that holds the
/// values. Entries are kept sorted by key, one entry per key.
pub struct SecretStore<P> {
    provider: P,
    entries: Vec<SecretEntry>,
}

/// The outcome of an access check: `Ok` exactly when the key is registered
/// and the module is among its allowed modules.
pub open spec fn access(m: Map<Seq<char>, Seq<Seq<char>>>, module: Seq<char>, key: Seq<char>) -> Result<(), ()> {
    if m.contains_key(key) && m[key].contains(module) {
        Ok(())
    } else {
        Err(())
    }
}

impl<P> SecretStore<P> {
    /// Keys strictly increasing.
    #[verifier::type_invariant]
    closed spec fn wf(&self) -> bool {
        sorted_keys(self.entries@)
    }

    /// The registered keys and the modules allowed to read each.
    pub closed spec fn view(&self) -> Map<Seq<char>, Seq<Seq<char>>> {
        Map::new(
            |k: Seq<char>| exists|i: int| 0 <= i < self.entries@.len() && #[trigger] self.entries@[i].key@ == k,
            |k: Seq<char>| {
                let i = choose|i: int| 0 <= i < self.entries@.len() && #[trigger] self.entries@[i].key@ == k;
                module_views(self.entries@[i].allowed_modules@)
            },
        )
    }

    /// The provider the store delegates value lookups to.
    pub closed spec fn spec_provider(&self) -> P {
        self.provider
    }

    /// An empty store over `provider`.
    pub fn new(provider: P) -> (s: SecretStore<P>)
        ensures
            s.view() == Map::<Seq<char>, Seq<Seq<char>>>::empty(),
            s.spec_provider() == provider,
    {
        let s = SecretStore { provider, entries: Vec::new() };
        assert(s.view() =~= Map::<Seq<char>, Seq<Seq<char>>>::empty());
        s
    }

    /// The provider the store delegates value lookups to.
    pub fn provider(&self) -> (p: &P)
        ensures
            *p == self.spec_provider(),
    {
        &self.provider
    }

    /// Register a key with the modules allowed to read it, replacing any
    /// earlier registration of the same key.
    pub fn register(&mut self, key: &str, allowed_modules: Vec<String>)
        ensures
            final(self).view() == old(self).view().insert(key@, module_views(allowed_modules@)),
            final(self).spec_provider() == old(self).spec_provider(),
    {
        proof {
            use_type_invariant(&*self);
        }
        let k = to_chars(key);
        let ghost old_entries = self.entries@;
        let mut pos: usize = 0;
        while pos < self.entries.len() && lex_less(&to_chars(self.entries[pos].key.as_str()), &k)
            invariant
                pos <= self.entries.len(),
                self.entries@ == old_entries,
                forall|j: int| 0 <= j < pos ==> lex_lt(#[trigger] old_entries[j].key@, k@),
            decreases self.entries.len() - pos,
        {
            pos += 1;
        }
        assert(pos < old_entries.len() ==> !lex_lt(old_entries[pos as int].key@, k@));
        assert(sorted_keys(old_entries));
        let entry = SecretEntry { key: key.to_owned(), allowed_modules };
        let mut entries = Vec::new();
        std::mem::swap(&mut entries, &mut self.entries);
        let replace = pos < entries.len() && entries[pos].key.as_str().to_owned() == key.to_owned();
        proof {
            if pos < old_entries.len() {
                lemma_lex_trichotomy(old_entries[pos as int].key@, k@);
            }
        }
        if replace {
            entries.set(pos, entry);
        } else {
            entries.insert(pos, entry);
        }
        proof {
            let ne = entries@;
            assert forall|i: int, j: int| 0 <= i < j < ne.len() implies lex_lt(
                #[trigger] ne[i].key@,
                #[trigger] ne[j].key@,
            ) by {
                if replace {
                    if i == pos as int && j > i {
                        lemma_lex_trichotomy(old_entries[pos as int].key@, k@);
                    }
                } else {
                    if i < pos && j == pos as int {
                    } else if i == pos as int {
                        lemma_lex_trichotomy(old_entries[pos as int].key@, k@);
                        if j - 1 > pos {
                            lemma_lex_transitive(k@, old_entries[pos as int].key@, old_entries[j - 1].key@);
                        }
                    } else if i < pos && j > pos {
                        assert(lex_lt(old_entries[i].key@, k@));
                        lemma_lex_trichotomy(old_entries[pos as int].key@, k@);
                        if j - 1 > pos {
                            lemma_lex_transitive(k@, old_entries[pos as int].key@, old_entries[j - 1].key@);
                        }
                        lemma_lex_transitive(old_entries[i].key@, k@, ne[j].key@);
                    } else if j < pos {
                        assert(ne[i] == old_entries[i]);
                        assert(ne[j] == old_entries[j]);
                    } else {
                        assert(ne[i] == old_entries[i - 1]);
                        assert(ne[j] == old_entries[j - 1]);
                    }
                }
            }
        }
        self.entries = entries;
        proof {
            let v0 = Map::<Seq<char>, Seq<Seq<char>>>::new(
                |kk: Seq<char>| exists|i: int| 0 <= i < old_entries.len() && #[trigger] old_entries[i].key@ == kk,
                |kk: Seq<char>| {
                    let i = choose|i: int| 0 <= i < old_entries.len() && #[trigger] old_entries[i].key@ == kk;
                    module_views(old_entries[i].allowed_modules@)
                },
            );
            assert(self.view().dom() =~= v0.dom().insert(key@)) by {
                assert forall|kk: Seq<char>| #[trigger] self.view().dom().contains(kk) <==> v0.dom().insert(key@).contains(kk) by {
                    if v0.dom().contains(kk) && kk != key@ {
                        let i = choose|i: int| 0 <= i < old_entries.len() && #[trigger] old_entries[i].key@ == kk;
                        if replace {
                            assert(self.entries@[i].key@ == kk);
                        } else if i < pos {
                            assert(self.entries@[i].key@ == kk);
                        } else {
                            assert(self.entries@[i + 1].key@ == kk);
                        }
                    }
                    if kk == key@ {
                        assert(self.entries@[pos as int].key@ == kk);
                    }
                    if self.view().dom().contains(kk) && kk != key@ {
                        let i = choose|i: int| 0 <= i < self.entries@.len() && #[trigger] self.entries@[i].key@ == kk;
                        if replace {
                            assert(old_entries[i].key@ == kk);
                        } else if i < pos {
                            assert(old_entries[i].key@ == kk);
                        } else {
                            assert(i != pos);
                            assert(old_entries[i - 1].key@ == kk);
                        }
                    }
                }
            }
            assert(self.view() =~= v0.insert(key@, module_views(self.entries@[pos as int].allowed_modules@))) by {
                assert forall|kk: Seq<char>| #[trigger] self.view().dom().contains(kk) implies self.view()[kk]
                    == v0.insert(key@, module_views(self.entries@[pos as int].allowed_modules@))[kk] by {
                    let i = choose|i: int| 0 <= i < self.entries@.len() && #[trigger] self.entries@[i].key@ == kk;
                    if kk == key@ {
                        if i != pos {
                            if i < pos {
                                lemma_lex_trichotomy(self.entries@[i].key@, kk);
                            } else {
                                lemma_lex_trichotomy(self.entries@[pos as int].key@, kk);
                            }
                        }
                    } else {
                        let i0 = choose|i: int| 0 <= i < old_entries.len() && #[trigger] old_entries[i].key@ == kk;
                        let i1: int = if replace || i0 < pos { i0 } else { i0 + 1 };
                        assert(self.entries@[i1].key@ == kk);
                        if i != i1 {
                            if i < i1 {
                                lemma_lex_trichotomy(self.entries@[i].key@, kk);
                            } else {
                                lemma_lex_trichotomy(self.entries@[i1].key@, kk);
                            }
                        }
                        if replace || i0 < pos {
                            assert(self.entries@[i1] == old_entries[i0]);
                        } else {
                            assert(self.entries@[i1] == old_entries[i0]);
                        }
                        let j0 = choose|i: int| 0 <= i < old_entries.len() && #[trigger] old_entries[i].key@ == kk;
                        assert(j0 == i0);
                    }
                }
            }
        }
    }

    /// All registered keys, in increasing order.
    pub fn keys(&self) -> (r: Vec<&str>)
        ensures
            forall|i: int, j: int| 0 <= i < j < r@.len() ==> lex_lt(#[trigger] r@[i]@, #[trigger] r@[j]@),
            forall|k: Seq<char>| self.view().contains_key(k) <==> exists|i: int| 0 <= i < r@.len() && #[trigger] r@[i]@ == k,
    {
        proof {
            use_type_invariant(self);
        }
        let mut r: Vec<&str> = Vec::new();
        let mut i: usize = 0;
        while i < self.entries.len()
            invariant
                i <= self.entries.len(),
                r@.len() == i,
                forall|j: int| 0 <= j < i ==> #[trigger] r@[j]@ == self.entries@[j].key@,
                forall|a: int, b: int|
                    0 <= a < b < self.entries@.len() ==> lex_lt(
                        #[trigger] self.entries@[a].key@,
                        #[trigger] self.entries@[b].key@,
                    ),
            decreases self.entries.len() - i,
        {
            r.push(self.entries[i].key.as_str());
            i += 1;
        }
        proof {
            assert forall|a: int, b: int| 0 <= a < b < r@.len() implies lex_lt(#[trigger] r@[a]@, #[trigger] r@[b]@) by {
                assert(r@[a]@ == self.entries@[a].key@);
                assert(r@[b]@ == self.entries@[b].key@);
            }
            assert forall|k: Seq<char>| self.view().contains_key(k) <==> exists|i: int| 0 <= i < r@.len() && #[trigger] r@[i]@ == k by {
                if self.view().contains_key(k) {
                    let i = choose|i: int| 0 <= i < self.entries@.len() && #[trigger] self.entries@[i].key@ == k;
                    assert(r@[i]@ == k);
                }
                if exists|i: int| 0 <= i < r@.len() && #[trigger] r@[i]@ == k {
                    let i = choose|i: int| 0 <= i < r@.len() && #[trigger] r@[i]@ == k;
                    assert(self.entries@[i].key@ == k);
                }
            }
        }
        r
    }

    /// Check that `module` may read `key`: `NotFound` when the key is not
    /// registered, `AccessDenied` when the module is not among its allowed
    /// modules. The value itself is then read from the provider.
    pub fn authorize(&self, module: &str, key: &str) -> (r: Result<(), SecretError>)
        ensures
            r is Ok <==> access(self.view(), module@, key@) is Ok,
            r matches Err(SecretError::NotFound(k)) ==> k@ == key@ && !self.view().contains_key(key@),
            r matches Err(SecretError::AccessDenied { module: m, key: k }) ==> m@ == module@ && k@ == key@
                && self.view().contains_key(key@) && !self.view()[key@].contains(module@),
            r is Err ==> (r matches Err(SecretError::NotFound(_)) || r matches Err(SecretError::AccessDenied { .. })),
    {
        proof {
            use_type_invariant(self);
        }
        let mut i: usize = 0;
        while i < self.entries.len()
            invariant
                i <= self.entries.len(),
                sorted_keys(self.entries@),
                forall|j: int| 0 <= j < i ==> #[trigger] self.entries@[j].key@ != key@,
            decreases self.entries.len() - i,
        {
            if self.entries[i].key.as_str().to_owned() == key.to_owned() {
                let mods = &self.entries[i].allowed_modules;
                proof {
                    let c = choose|c: int| 0 <= c < self.entries@.len() && #[trigger] self.entries@[c].key@ == key@;
                    if c != i {
                        lemma_lex_irreflexive(key@);
                        if c < i {
                            assert(lex_lt(self.entries@[c].key@, self.entries@[i as int].key@));
                        } else {
                            assert(lex_lt(self.entries@[i as int].key@, self.entries@[c].key@));
                        }
                    }
                    assert(self.view()[key@] == module_views(mods@));
                    assert(self.view().contains_key(key@));
                }
                let mut j: usize = 0;
                while j < mods.len()
                    invariant
                        j <= mods.len(),
                        self.view().contains_key(key@),
                        self.view()[key@] == module_views(mods@),
                        forall|t: int| 0 <= t < j ==> #[trigger] mods@[t]@ != module@,
                    decreases mods.len() - j,
                {
                    if mods[j].as_str().to_owned() == module.to_owned() {
                        proof {
                            assert(module_views(mods@)[j as int] == module@);
                        }
                        return Ok(());
                    }
                    j += 1;
                }
                proof {
                    if module_views(mods@).contains(module@) {
                        let t = choose|t: int| 0 <= t < module_views(mods@).len() && module_views(mods@)[t] == module@;
                        assert(mods@[t]@ == module@);
                    }
                }
                return Err(SecretError::AccessDenied { module: module.to_owned(), key: key.to_owned() });
            }
            i += 1;
        }
        Err(SecretError::NotFound(key.to_owned()))
    }
}

/// Reading after registering: once `key` is registered for `modules`, a
/// module may read it exactly when it is one of `modules`, and the other keys
/// keep their access rules.
pub proof fn law_access_after_register(
    m: Map<Seq<char>, Seq<Seq<char>>>,
    key: Seq<char>,
    modules: Seq<Seq<char>>,
    module: Seq<char>,
    other: Seq<char>,
)
    ensures
        access(m.insert(key, modules), module, key) is Ok <==> modules.contains(module),
        other != key ==> access(m.insert(key, modules), module, other) == access(m, module, other),
{
}

} // verus!
