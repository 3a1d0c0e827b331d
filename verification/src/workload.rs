//! Structured workload identifiers of the form `<namespace>/<name>`.

use vstd::prelude::*;

use crate::text::{
    concat2, find_char, first_index, lemma_first_index_unique, push_char, push_str,
    string_from_chars, string_from_range, to_chars,
};

verus! {

broadcast use vstd::string::group_string_axioms;

/// A structured workload identifier following the `<namespace>/<name>`
/// convention (e.g. `runtime/model-runtime`).
#[derive(Debug, PartialEq, Eq, Hash)]
pub struct WorkloadId {
    namespace: String,
    name: String,
}

/// Why a workload id was rejected; each variant carries the raw input.
#[derive(Debug)]
pub enum WorkloadIdError {
    InvalidFormat(String),
    InvalidCharacters(String),
}

/// The full identity record for a workload: its id and the capabilities it may claim.
#[derive(Debug, Clone)]
pub struct WorkloadIdentity {
    pub id: WorkloadId,
    pub capabilities: Vec<String>,
}

/// Characters allowed in a segment: lower-case ASCII letters, digits, `-` and `_`.
pub open spec fn valid_segment_char(c: char) -> bool {
    ('a' <= c && c <= 'z') || ('0' <= c && c <= '9') || c == '-' || c == '_'
}

/// A segment made only of allowed characters.
pub open spec fn valid_segment(s: Seq<char>) -> bool {
    forall|i: int| 0 <= i < s.len() ==> valid_segment_char(#[trigger] s[i])
}

/// Position of the first `/` of a raw id (its length when there is none).
pub open spec fn slash_pos(raw: Seq<char>) -> int {
    first_index(raw, '/')
}

/// The namespace part of a raw id: everything before the first `/`.
pub open spec fn raw_namespace(raw: Seq<char>) -> Seq<char> {
    raw.subrange(0, slash_pos(raw))
}

/// The name part of a raw id: everything after the first `/`.
pub open spec fn raw_name(raw: Seq<char>) -> Seq<char> {
    raw.subrange(slash_pos(raw) + 1, raw.len() as int)
}

/// The raw id has a `/` with a non-empty part on each side of the first one.
pub open spec fn well_formed_id(raw: Seq<char>) -> bool {
    &&& slash_pos(raw) < raw.len()
    &&& slash_pos(raw) > 0
    &&& slash_pos(raw) + 1 < raw.len()
}

/// The raw id is accepted by `WorkloadId::parse`.
pub open spec fn valid_workload_id(raw: Seq<char>) -> bool {
    &&& well_formed_id(raw)
    &&& valid_segment(raw_namespace(raw))
    &&& valid_segment(raw_name(raw))
}

fn is_valid_segment_char(c: char) -> (r: bool)
    ensures
        r == valid_segment_char(c),
{
    ('a' <= c && c <= 'z') || ('0' <= c && c <= '9') || c == '-' || c == '_'
}

/// Whether `v[from..to]` is a valid segment.
fn is_valid_segment(v: &Vec<char>, from: usize, to: usize) -> (r: bool)
    requires
        from <= to <= v.len(),
    ensures
        r == valid_segment(v@.subrange(from as int, to as int)),
{
    let mut i = from;
    while i < to
        invariant
            from <= i <= to <= v.len(),
            forall|j: int| from <= j < i ==> valid_segment_char(v@[j]),
        decreases to - i,
    {
        if !is_valid_segment_char(v[i]) {
            assert(!valid_segment_char(v@.subrange(from as int, to as int)[i - from]));
            return false;
        }
        i += 1;
    }
    assert forall|k: int| 0 <= k < to - from implies valid_segment_char(
        #[trigger] v@.subrange(from as int, to as int)[k],
    ) by {
        assert(v@.subrange(from as int, to as int)[k] == v@[from + k]);
    }
    true
}

impl WorkloadId {
    /// Both parts are non-empty and made only of allowed characters.
    #[verifier::type_invariant]
    pub closed spec fn wf(&self) -> bool {
        &&& self.namespace@.len() > 0
        &&& self.name@.len() > 0
        &&& valid_segment(self.namespace@)
        &&& valid_segment(self.name@)
    }

    /// The namespace, as a character sequence.
    pub closed spec fn spec_namespace(&self) -> Seq<char> {
        self.namespace@
    }

    /// The name, as a character sequence.
    pub closed spec fn spec_name(&self) -> Seq<char> {
        self.name@
    }

    /// The `namespace/name` rendering of the id.
    pub open spec fn full(&self) -> Seq<char> {
        self.spec_namespace() + seq!['/'] + self.spec_name()
    }

    /// Parse a workload id from a `namespace/name` string.
    ///
    /// The string is split at its first `/`; both parts must be non-empty
    /// (else `InvalidFormat`) and made of lower-case ASCII letters, digits,
    /// `-` and `_` (else `InvalidCharacters`).
    pub fn parse(raw: &str) -> (r: Result<WorkloadId, WorkloadIdError>)
        ensures
            valid_workload_id(raw@) <==> r is Ok,
            r matches Ok(id) ==> id.spec_namespace() == raw_namespace(raw@) && id.spec_name()
                == raw_name(raw@),
            r matches Err(WorkloadIdError::InvalidFormat(s)) ==> s@ == raw@ && !well_formed_id(
                raw@,
            ),
            r matches Err(WorkloadIdError::InvalidCharacters(s)) ==> s@ == raw@
                && well_formed_id(raw@),
    {
        let v = to_chars(raw);
        let k = find_char(&v, '/');
        if k >= v.len() || k == 0 || k + 1 >= v.len() {
            return Err(WorkloadIdError::InvalidFormat(string_from_chars(&v)));
        }
        if !is_valid_segment(&v, 0, k) || !is_valid_segment(&v, k + 1, v.len()) {
            return Err(WorkloadIdError::InvalidCharacters(string_from_chars(&v)));
        }
        let namespace = string_from_range(&v, 0, k);
        let name = string_from_range(&v, k + 1, v.len());
        Ok(WorkloadId { namespace, name })
    }

    /// The namespace part of the id.
    pub fn namespace(&self) -> (r: &str)
        ensures
            r@ == self.spec_namespace(),
    {
        self.namespace.as_str()
    }

    /// The name part of the id.
    pub fn name(&self) -> (r: &str)
        ensures
            r@ == self.spec_name(),
    {
        self.name.as_str()
    }

    /// The `namespace/name` rendering of the id.
    pub fn to_string(&self) -> (r: String)
        ensures
            r@ == self.full(),
    {
        let mut r = String::new();
        push_str(&mut r, self.namespace.as_str());
        push_char(&mut r, '/');
        push_str(&mut r, self.name.as_str());
        assert(r@ =~= self.full());
        r
    }

    /// Whether two ids are the same workload.
    pub fn same_as(&self, other: &WorkloadId) -> (r: bool)
        ensures
            r == (self.spec_namespace() == other.spec_namespace() && self.spec_name()
                == other.spec_name()),
    {
        self.namespace == other.namespace && self.name == other.name
    }
}


impl Clone for WorkloadId {
    fn clone(&self) -> (r: Self)
        ensures
            r == *self,
    {
        proof {
            use_type_invariant(self);
        }
        WorkloadId { namespace: self.namespace.clone(), name: self.name.clone() }
    }
}

impl WorkloadIdError {
    /// The error message, as the error's `Display` renders it.
    pub fn message(&self) -> (r: String)
        ensures
            self matches WorkloadIdError::InvalidFormat(s) ==> r@ == workload_format_prefix() + s@,
            self matches WorkloadIdError::InvalidCharacters(s) ==> r@ == workload_chars_prefix()
                + s@,
    {
        match self {
            WorkloadIdError::InvalidFormat(s) => concat2(
                "invalid workload id format (expected namespace/name): ",
                s.as_str(),
            ),
            WorkloadIdError::InvalidCharacters(s) => concat2(
                "workload id contains invalid characters: ",
                s.as_str(),
            ),
        }
    }
}

/// Message prefix of `WorkloadIdError::InvalidFormat`.
pub open spec fn workload_format_prefix() -> Seq<char> {
    "invalid workload id format (expected namespace/name): "@
}

/// Message prefix of `WorkloadIdError::InvalidCharacters`.
pub open spec fn workload_chars_prefix() -> Seq<char> {
    "workload id contains invalid characters: "@
}

/// Parsing a rendered id gives back the same id: `parse(id.to_string())`
/// succeeds with the same namespace and name, for every id that `parse` built.
pub proof fn law_workload_id_roundtrip(ns: Seq<char>, name: Seq<char>)
    requires
        ns.len() > 0,
        name.len() > 0,
        valid_segment(ns),
        valid_segment(name),
    ensures
        valid_workload_id(ns + seq!['/'] + name),
        raw_namespace(ns + seq!['/'] + name) == ns,
        raw_name(ns + seq!['/'] + name) == name,
{
    let raw = ns + seq!['/'] + name;
    assert forall|j: int| 0 <= j < ns.len() implies raw[j] != '/' by {
        assert(raw[j] == ns[j]);
        assert(valid_segment_char(ns[j]));
    }
    lemma_first_index_unique(raw, '/', ns.len() as int);
    assert(raw.subrange(0, ns.len() as int) =~= ns);
    assert(raw.subrange(ns.len() + 1 as int, raw.len() as int) =~= name);
}


/// Two valid ids render the same exactly when their parts are equal.
pub proof fn lemma_full_injective(a: WorkloadId, b: WorkloadId)
    requires
        a.wf(),
        b.wf(),
        a.full() == b.full(),
    ensures
        a.spec_namespace() == b.spec_namespace(),
        a.spec_name() == b.spec_name(),
{
    let fa = a.full();
    let na = a.spec_namespace();
    let nb = b.spec_namespace();
    assert forall|j: int| 0 <= j < na.len() implies fa[j] != '/' by {
        assert(fa[j] == na[j]);
        assert(valid_segment_char(na[j]));
    }
    assert forall|j: int| 0 <= j < nb.len() implies fa[j] != '/' by {
        assert(b.full()[j] == nb[j]);
        assert(valid_segment_char(nb[j]));
    }
    assert(fa[na.len() as int] == '/');
    assert(b.full()[nb.len() as int] == '/');
    lemma_first_index_unique(fa, '/', na.len() as int);
    lemma_first_index_unique(fa, '/', nb.len() as int);
    assert(na =~= fa.subrange(0, na.len() as int));
    assert(nb =~= b.full().subrange(0, nb.len() as int));
    assert(a.spec_name() =~= fa.subrange(na.len() + 1 as int, fa.len() as int));
    assert(b.spec_name() =~= b.full().subrange(nb.len() + 1 as int, fa.len() as int));
}

} // verus!
