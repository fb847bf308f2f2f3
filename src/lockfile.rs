use vstd::prelude::*;
use vstd::multiset::Multiset;
use vstd::string::StrSliceExecFns;
use crate::text::{int_dec, push_int_dec};

verus! {

broadcast use vstd::seq_lib::group_to_multiset_ensures;

/// A release version: major, minor and patch numbers.
#[derive(Clone, Copy, Debug, PartialEq, Eq, Structural)]
pub struct Version {
    pub major: u64,
    pub minor: u64,
    pub patch: u64,
}

/// Version order: by major, then minor, then patch number.
pub open spec fn version_lt(a: Version, b: Version) -> bool {
    a.major < b.major || (a.major == b.major && (a.minor < b.minor || (a.minor == b.minor && a.patch < b.patch)))
}

pub fn version_less(a: Version, b: Version) -> (r: bool)
    ensures
        r == version_lt(a, b),
{
    a.major < b.major || (a.major == b.major && (a.minor < b.minor || (a.minor == b.minor && a.patch < b.patch)))
}

/// Text order, character by character, as URLs are ordered.
pub open spec fn chars_lt(a: Seq<char>, b: Seq<char>) -> bool
    decreases a.len(),
{
    if a.len() == 0 {
        b.len() > 0
    } else if b.len() == 0 {
        false
    } else if a[0] != b[0] {
        a[0] < b[0]
    } else {
        chars_lt(a.drop_first(), b.drop_first())
    }
}

proof fn lemma_chars_lt_irrefl(a: Seq<char>)
    ensures
        !chars_lt(a, a),
    decreases a.len(),
{
    if a.len() > 0 {
        lemma_chars_lt_irrefl(a.drop_first());
    }
}

proof fn lemma_chars_lt_trans(a: Seq<char>, b: Seq<char>, c: Seq<char>)
    requires
        chars_lt(a, b),
        chars_lt(b, c),
    ensures
        chars_lt(a, c),
    decreases a.len(),
{
    if a.len() > 0 && b.len() > 0 && c.len() > 0 && a[0] == b[0] && b[0] == c[0] {
        lemma_chars_lt_trans(a.drop_first(), b.drop_first(), c.drop_first());
    }
}

proof fn lemma_chars_lt_total(a: Seq<char>, b: Seq<char>)
    requires
        a != b,
    ensures
        chars_lt(a, b) || chars_lt(b, a),
    decreases a.len(),
{
    if a.len() > 0 && b.len() > 0 && a[0] == b[0] {
        if a.drop_first() == b.drop_first() {
            assert(a =~= seq![a[0]] + a.drop_first());
            assert(b =~= seq![b[0]] + b.drop_first());
        }
        lemma_chars_lt_total(a.drop_first(), b.drop_first());
    } else if a.len() == 0 && b.len() == 0 {
        assert(a =~= b);
    }
}

fn text_less(a: &String, b: &String) -> (r: bool)
    ensures
        r == chars_lt(a@, b@),
{
    let sa = a.as_str();
    let sb = b.as_str();
    let la = sa.unicode_len();
    let lb = sb.unicode_len();
    let mut i: usize = 0;
    proof {
        assert(a@.subrange(0, la as int) =~= a@);
        assert(b@.subrange(0, lb as int) =~= b@);
    }
    while i < la && i < lb
        invariant
            la == a@.len(),
            lb == b@.len(),
            sa@ == a@,
            sb@ == b@,
            i <= la,
            i <= lb,
            chars_lt(a@, b@) == chars_lt(a@.subrange(i as int, la as int), b@.subrange(i as int, lb as int)),
        decreases la - i,
    {
        let ca = sa.get_char(i);
        let cb = sb.get_char(i);
        proof {
            let x = a@.subrange(i as int, la as int);
            let y = b@.subrange(i as int, lb as int);
            assert(x.drop_first() =~= a@.subrange(i + 1, la as int));
            assert(y.drop_first() =~= b@.subrange(i + 1, lb as int));
        }
        if ca != cb {
            return ca < cb;
        }
        i += 1;
    }
    i < lb
}

/// A package whose dependencies are pinned: the one registered under `name`
/// at `url`, released as `version` at VCS revision `revision`.
#[derive(Debug)]
pub struct LockDependency {
    pub name: String,
    pub version: Version,
    pub url: String,
    pub revision: String,
}

/// A resolved, pinned package.
#[derive(Debug)]
pub struct Lock {
    pub name: String,
    pub uuid: u128,
    pub version: Version,
    pub url: String,
    pub revision: String,
    pub dependencies: Vec<LockDependency>,
    pub used: bool,
}

/// A pinned dependency with its texts as character sequences.
pub struct LockDependencyView {
    pub name: Seq<char>,
    pub version: Version,
    pub url: Seq<char>,
    pub revision: Seq<char>,
}

/// A lock with its texts as character sequences.
pub struct LockView {
    pub name: Seq<char>,
    pub uuid: u128,
    pub version: Version,
    pub url: Seq<char>,
    pub revision: Seq<char>,
    pub dependencies: Seq<LockDependencyView>,
    pub used: bool,
}

impl LockDependency {
    pub open spec fn view(&self) -> LockDependencyView {
        LockDependencyView { name: self.name@, version: self.version, url: self.url@, revision: self.revision@ }
    }

    pub fn duplicate(&self) -> (r: LockDependency)
        ensures
            r.view() == self.view(),
    {
        LockDependency {
            name: self.name.clone(),
            version: self.version,
            url: self.url.clone(),
            revision: self.revision.clone(),
        }
    }
}

impl Lock {
    pub open spec fn view(&self) -> LockView {
        LockView {
            name: self.name@,
            uuid: self.uuid,
            version: self.version,
            url: self.url@,
            revision: self.revision@,
            dependencies: self.dependencies@.map_values(|d: LockDependency| d.view()),
            used: self.used,
        }
    }

    /// A copy of the lock.
    pub fn duplicate(&self) -> (r: Lock)
        ensures
            r.view() == self.view(),
    {
        let mut dependencies: Vec<LockDependency> = Vec::new();
        let mut i: usize = 0;
        while i < self.dependencies.len()
            invariant
                i <= self.dependencies@.len(),
                dependencies@.map_values(|d: LockDependency| d.view()) == self.dependencies@.map_values(|d: LockDependency| d.view()).take(i as int),
            decreases self.dependencies@.len() - i,
        {
            let d = self.dependencies[i].duplicate();
            let ghost before = dependencies@;
            let ghost dv = d.view();
            dependencies.push(d);
            i += 1;
            proof {
                assert(dependencies@.map_values(|d: LockDependency| d.view()) =~= before.map_values(|d: LockDependency| d.view()).push(dv));
                assert(dependencies@.map_values(|d: LockDependency| d.view()) =~= self.dependencies@.map_values(|d: LockDependency| d.view()).take(i as int));
            }
        }
        proof {
            assert(dependencies@.map_values(|d: LockDependency| d.view()) =~= self.dependencies@.map_values(|d: LockDependency| d.view()));
        }
        Lock {
            name: self.name.clone(),
            uuid: self.uuid,
            version: self.version,
            url: self.url.clone(),
            revision: self.revision.clone(),
            dependencies,
            used: self.used,
        }
    }
}

/// The views of a sequence of locks.
pub open spec fn locks_view(s: Seq<Lock>) -> Seq<LockView> {
    s.map_values(|l: Lock| l.view())
}

/// `a` comes before `b`: by URL, then by version, ascending or, when
/// `desc`, descending.
pub open spec fn lock_lt(a: Lock, b: Lock, desc: bool) -> bool {
    chars_lt(a.url@, b.url@) || (a.url@ == b.url@ && if desc {
        version_lt(b.version, a.version)
    } else {
        version_lt(a.version, b.version)
    })
}

/// No lock of `s` comes before one that precedes it.
pub open spec fn locks_sorted(s: Seq<Lock>, desc: bool) -> bool {
    forall|i: int, j: int| 0 <= i < j < s.len() ==> !lock_lt(#[trigger] s[j], #[trigger] s[i], desc)
}

proof fn lemma_lock_lt_trans(a: Lock, b: Lock, c: Lock, desc: bool)
    requires
        lock_lt(a, b, desc),
        lock_lt(b, c, desc),
    ensures
        lock_lt(a, c, desc),
{
    if chars_lt(a.url@, b.url@) && chars_lt(b.url@, c.url@) {
        lemma_chars_lt_trans(a.url@, b.url@, c.url@);
    }
}

proof fn lemma_lock_not_lt_trans(a: Lock, b: Lock, c: Lock, desc: bool)
    requires
        !lock_lt(b, a, desc),
        !lock_lt(c, b, desc),
    ensures
        !lock_lt(c, a, desc),
{
    if lock_lt(c, a, desc) {
        if a.url@ != b.url@ {
            lemma_chars_lt_total(a.url@, b.url@);
        }
        if b.url@ != c.url@ {
            lemma_chars_lt_total(b.url@, c.url@);
        }
        if chars_lt(a.url@, b.url@) && chars_lt(b.url@, c.url@) {
            lemma_chars_lt_trans(a.url@, b.url@, c.url@);
        }
        if chars_lt(c.url@, a.url@) && chars_lt(a.url@, b.url@) {
            lemma_chars_lt_trans(c.url@, a.url@, b.url@);
        }
        if chars_lt(b.url@, c.url@) && chars_lt(c.url@, a.url@) {
            lemma_chars_lt_trans(b.url@, c.url@, a.url@);
        }
        lemma_chars_lt_irrefl(a.url@);
        lemma_chars_lt_irrefl(b.url@);
        lemma_chars_lt_irrefl(c.url@);
    }
}

proof fn lemma_lock_lt_asym(a: Lock, b: Lock, desc: bool)
    requires
        lock_lt(a, b, desc),
    ensures
        !lock_lt(b, a, desc),
{
    if lock_lt(b, a, desc) {
        lemma_lock_lt_trans(a, b, a, desc);
        lemma_chars_lt_irrefl(a.url@);
    }
}

fn lock_less(a: &Lock, b: &Lock, desc: bool) -> (r: bool)
    ensures
        r == lock_lt(*a, *b, desc),
{
    if text_less(&a.url, &b.url) {
        return true;
    }
    if a.url != b.url {
        return false;
    }
    if desc {
        version_less(b.version, a.version)
    } else {
        version_less(a.version, b.version)
    }
}

/// Sorts locks by URL, then by version, ascending or, when `desc`,
/// descending.
pub fn sort_locks(locks: Vec<Lock>, desc: bool) -> (r: Vec<Lock>)
    ensures
        locks_sorted(r@, desc),
        locks_view(r@).to_multiset() == locks_view(locks@).to_multiset(),
{
    let mut input = locks;
    let mut r: Vec<Lock> = Vec::new();
    while input.len() > 0
        invariant
            locks_sorted(r@, desc),
            locks_view(r@).to_multiset().add(locks_view(input@).to_multiset()) == locks_view(locks@).to_multiset(),
        decreases input@.len(),
    {
        let ghost before_in = input@;
        let x = input.pop().unwrap();
        proof {
            assert(before_in =~= input@.push(x));
            assert(locks_view(before_in) =~= locks_view(input@).push(x.view()));
        }
        let mut pos: usize = r.len();
        while pos > 0 && lock_less(&x, &r[pos - 1], desc)
            invariant
                pos <= r@.len(),
                locks_sorted(r@, desc),
                forall|k: int| pos <= k < r@.len() ==> lock_lt(x, #[trigger] r@[k], desc),
            decreases pos,
        {
            proof {
                let p = (pos - 1) as int;
                assert forall|k: int| p <= k < r@.len() implies lock_lt(x, #[trigger] r@[k], desc) by {
                    if k > p {
                        assert(!lock_lt(r@[k], r@[p], desc));
                        if !lock_lt(x, r@[k], desc) {
                            lemma_lock_not_lt_trans(r@[p], r@[k], x, desc);
                        }
                    }
                }
            }
            pos -= 1;
        }
        let ghost old_r = r@;
        r.insert(pos, x);
        proof {
            assert(r@ == old_r.insert(pos as int, x));
            assert forall|i: int, j: int| 0 <= i < j < r@.len() implies !lock_lt(#[trigger] r@[j], #[trigger] r@[i], desc) by {
                if i < pos && j == pos {
                    if i < pos - 1 {
                        lemma_lock_not_lt_trans(old_r[i], old_r[pos - 1], x, desc);
                    }
                } else if i == pos && j > pos {
                    lemma_lock_lt_asym(x, old_r[j - 1], desc);
                } else if i < pos && j > pos {
                    assert(r@[j] == old_r[j - 1]);
                } else if i > pos {
                    assert(r@[j] == old_r[j - 1] && r@[i] == old_r[i - 1]);
                }
            }
            assert(locks_view(r@) =~= locks_view(old_r).insert(pos as int, x.view()));
            assert(locks_view(r@).to_multiset().add(locks_view(input@).to_multiset()) =~= locks_view(locks@).to_multiset());
        }
    }
    proof {
        assert(locks_view(input@).to_multiset() =~= Multiset::empty());
    }
    r
}

/// The UUID (version 5, URL namespace) of a name.
pub uninterp spec fn uuid_v5_url(name: Seq<char>) -> u128;

/// Relies on uuid's `Uuid::new_v5` with `Uuid::NAMESPACE_URL`: a SHA-1 based
/// UUID that depends on the name's bytes alone.
#[verifier::external_body]
fn uuid_v5(name: &str) -> (r: u128)
    ensures
        r == uuid_v5_url(name@),
{
    uuid::Uuid::new_v5(&uuid::Uuid::NAMESPACE_URL, name.as_bytes()).as_u128()
}

/// Whether the version requirement written `req` admits `v`; false for a
/// requirement that does not parse.
pub uninterp spec fn req_admits(req: Seq<char>, v: Version) -> bool;

/// Relies on semver's `VersionReq::parse` and `VersionReq::matches`: whether a
/// version satisfies a requirement depends on the requirement's text and the
/// version alone.
#[verifier::external_body]
fn req_matches(req: &str, v: Version) -> (r: bool)
    ensures
        r == req_admits(req@, v),
{
    match semver::VersionReq::parse(req) {
        Ok(q) => q.matches(&semver::Version::new(v.major, v.minor, v.patch)),
        Err(_) => false,
    }
}

/// The UUID of the package at `url` pinned at `revision`.
pub open spec fn lock_uuid(url: Seq<char>, revision: Seq<char>) -> u128 {
    uuid_v5_url(url + revision)
}

/// Computes the UUID of the package at `url` pinned at `revision`; with an
/// empty revision, that of the repository itself.
pub fn gen_uuid(url: &String, revision: &String) -> (r: u128)
    ensures
        r == lock_uuid(url@, revision@),
{
    let mut name = url.clone();
    name.append(revision.as_str());
    uuid_v5(name.as_str())
}

/// A published release of a package.
#[derive(Debug)]
pub struct Release {
    pub version: Version,
    pub revision: String,
}

/// Errors of dependency resolution.
#[derive(Debug)]
pub enum LockfileError {
    NameConflict(String),
    VersionNotFound { url: String, version: String },
}

/// Position of the release to take among `releases`, given which of them the
/// requirement admits: the highest admitted version, the first listed among
/// equal ones.
pub open spec fn is_best(releases: Seq<Release>, admitted: Seq<bool>, k: int) -> bool {
    &&& 0 <= k < releases.len()
    &&& admitted[k]
    &&& forall|j: int| 0 <= j < releases.len() && #[trigger] admitted[j] ==> !version_lt(releases[k].version, releases[j].version)
    &&& forall|j: int| 0 <= j < k && #[trigger] admitted[j] ==> version_lt(releases[j].version, releases[k].version)
}

/// Which of `releases` the requirement `req` admits.
pub open spec fn admitted_by(releases: Seq<Release>, req: Seq<char>) -> Seq<bool> {
    releases.map_values(|x: Release| req_admits(req, x.version))
}

/// Finds the highest admitted release, `admitted[i]` telling whether the
/// requirement admits `releases[i]`.
pub fn best_release(releases: &Vec<Release>, admitted: &Vec<bool>) -> (r: Option<usize>)
    requires
        admitted@.len() == releases@.len(),
    ensures
        r matches Some(k) ==> is_best(releases@, admitted@, k as int),
        r is None <==> forall|j: int| 0 <= j < releases@.len() ==> !#[trigger] admitted@[j],
{
    let mut best: Option<usize> = None;
    let mut i: usize = 0;
    while i < releases.len()
        invariant
            admitted@.len() == releases@.len(),
            i <= releases@.len(),
            best matches Some(b) ==> is_best(releases@.take(i as int), admitted@.take(i as int), b as int),
            best is None ==> forall|j: int| 0 <= j < i ==> !#[trigger] admitted@[j],
        decreases releases@.len() - i,
    {
        if admitted[i] {
            match best {
                None => {
                    best = Some(i);
                },
                Some(b) => {
                    if version_less(releases[b].version, releases[i].version) {
                        best = Some(i);
                    }
                },
            }
        }
        i += 1;
        proof {
            let t = releases@.take(i as int);
            let a = admitted@.take(i as int);
            if let Some(b) = best {
                assert forall|j: int| 0 <= j < t.len() && #[trigger] a[j] implies !version_lt(t[b as int].version, t[j].version) by {
                    assert(t[j] == releases@[j] && a[j] == admitted@[j]);
                }
                assert forall|j: int| 0 <= j < b && #[trigger] a[j] implies version_lt(t[j].version, t[b as int].version) by {
                    assert(t[j] == releases@[j] && a[j] == admitted@[j]);
                }
            }
        }
    }
    proof {
        assert(releases@.take(releases@.len() as int) =~= releases@);
        assert(admitted@.take(admitted@.len() as int) =~= admitted@);
    }
    best
}

/// Chooses, among the releases published at `url`, the highest version that
/// `req` admits.
pub fn select_release(url: &String, releases: &Vec<Release>, req: &String) -> (r: Result<Release, LockfileError>)
    ensures
        r matches Ok(x) ==> exists|k: int| is_best(releases@, admitted_by(releases@, req@), k)
            && x.version == releases@[k].version && x.revision@ == releases@[k].revision@,
        r is Err <==> forall|j: int| 0 <= j < releases@.len() ==> !req_admits(req@, #[trigger] releases@[j].version),
        r matches Err(e) ==> (e matches LockfileError::VersionNotFound { url: u, version: v } && u@ == url@ && v@ == req@),
{
    let mut admitted: Vec<bool> = Vec::new();
    let mut i: usize = 0;
    while i < releases.len()
        invariant
            i <= releases@.len(),
            admitted@ == admitted_by(releases@, req@).take(i as int),
        decreases releases@.len() - i,
    {
        admitted.push(req_matches(req.as_str(), releases[i].version));
        i += 1;
        proof {
            assert(admitted@ =~= admitted_by(releases@, req@).take(i as int));
        }
    }
    proof {
        assert(admitted@ =~= admitted_by(releases@, req@));
    }
    match best_release(releases, &admitted) {
        Some(b) => Ok(Release { version: releases[b].version, revision: releases[b].revision.clone() }),
        None => {
            proof {
                assert forall|j: int| 0 <= j < releases@.len() implies !req_admits(req@, #[trigger] releases@[j].version) by {
                    assert(!admitted@[j]);
                }
            }
            Err(LockfileError::VersionNotFound { url: url.clone(), version: req.clone() })
        },
    }
}

/// `name` with the suffix `_<k>`.
pub open spec fn suffixed(name: Seq<char>, k: nat) -> Seq<char> {
    name + seq!['_'] + int_dec(k as int)
}

/// `name` is among the names of `table`.
pub open spec fn name_taken(table: Seq<String>, name: Seq<char>) -> bool {
    exists|i: int| 0 <= i < table.len() && (#[trigger] table[i])@ == name
}

fn contains_name(table: &Vec<String>, name: &String) -> (r: bool)
    ensures
        r == name_taken(table@, name@),
{
    let mut i: usize = 0;
    while i < table.len()
        invariant
            i <= table@.len(),
            forall|j: int| 0 <= j < i ==> (#[trigger] table@[j])@ != name@,
        decreases table@.len() - i,
    {
        if table[i] == *name {
            return true;
        }
        i += 1;
    }
    false
}

/// `n` is the name that registering `name` in `table` gives: `name` itself
/// when free, else, below the root, the first free `name_<k>`.
pub open spec fn chosen_name(table: Seq<String>, name: Seq<char>, root: bool, n: Seq<char>) -> bool {
    (!name_taken(table, name) && n == name) || (name_taken(table, name) && !root && exists|k: nat|
        n == suffixed(name, k) && !name_taken(table, suffixed(name, k))
            && forall|j: nat| j < k ==> name_taken(table, #[trigger] suffixed(name, j)))
}

/// Registers the name of a lock. A name already registered is an error for
/// a direct dependency of the root project; deeper, the first free name
/// among `name_0`, `name_1`, ... is taken instead.
pub fn assign_name(name_table: &mut Vec<String>, name: String, root: bool) -> (r: Result<String, LockfileError>)
    ensures
        !name_taken(old(name_table)@, name@) ==> (r matches Ok(n) && n@ == name@),
        name_taken(old(name_table)@, name@) && root ==> (r matches Err(LockfileError::NameConflict(n)) && n@ == name@),
        name_taken(old(name_table)@, name@) && !root && r is Ok ==> exists|k: nat|
            r->Ok_0@ == suffixed(name@, k) && !name_taken(old(name_table)@, suffixed(name@, k))
                && forall|j: nat| j < k ==> name_taken(old(name_table)@, #[trigger] suffixed(name@, j)),
        name_taken(old(name_table)@, name@) && !root && r is Err ==> forall|j: nat| j < isize::MAX ==> name_taken(
            old(name_table)@, #[trigger] suffixed(name@, j)),
        r matches Ok(n) ==> final(name_table)@.len() == old(name_table)@.len() + 1 && final(name_table)@.drop_last() == old(name_table)@
            && final(name_table)@.last()@ == n@,
        r is Err ==> final(name_table)@ == old(name_table)@,
        r matches Ok(n) ==> chosen_name(old(name_table)@, name@, root, n@),
        r matches Err(e) ==> e is NameConflict,
{
    if !contains_name(name_table, &name) {
        name_table.push(name.clone());
        return Ok(name);
    }
    if root {
        return Err(LockfileError::NameConflict(name));
    }
    let mut suffix: isize = 0;
    while suffix < isize::MAX
        invariant
            0 <= suffix,
            !root,
            name_taken(old(name_table)@, name@),
            forall|j: nat| j < suffix ==> name_taken(name_table@, #[trigger] suffixed(name@, j)),
            name_table@ == old(name_table)@,
        decreases isize::MAX - suffix,
    {
        let mut candidate = name.clone();
        proof {
            reveal_strlit("_");
        }
        candidate.append("_");
        push_int_dec(&mut candidate, suffix);
        proof {
            assert(candidate@ =~= suffixed(name@, suffix as nat));
        }
        if !contains_name(name_table, &candidate) {
            name_table.push(candidate.clone());
            return Ok(candidate);
        }
        suffix += 1;
    }
    Err(LockfileError::NameConflict(name))
}

/// Some lock of `old` sits at the URL of `l` with its version and name.
pub open spec fn kept(old: Seq<LockView>, l: LockView) -> bool {
    exists|j: int| 0 <= j < old.len() && (#[trigger] old[j]).url == l.url && old[j].version == l.version && old[j].name == l.name
}

/// Some lock of `new` has the UUID of `l`.
pub open spec fn retained(new: Seq<LockView>, l: LockView) -> bool {
    exists|i: int| 0 <= i < new.len() && (#[trigger] new[i]).uuid == l.uuid
}

/// Going from the locks `old` to `new` adds or removes a dependency: a lock
/// of `new` has no lock of `old` with its URL, version and name, or a lock
/// of `old` has its UUID in no lock of `new`.
pub open spec fn lock_table_modified(old: Seq<LockView>, new: Seq<LockView>) -> bool {
    (exists|i: int| 0 <= i < new.len() && !kept(old, #[trigger] new[i]))
        || (exists|j: int| 0 <= j < old.len() && !retained(new, #[trigger] old[j]))
}

/// The first lock of `table` at `url` whose version `req` admits is at `k`.
pub open spec fn first_admitted(table: Seq<Lock>, url: Seq<char>, req: Seq<char>, k: int) -> bool {
    &&& 0 <= k < table.len()
    &&& table[k].url@ == url
    &&& req_admits(req, table[k].version)
    &&& forall|j: int| 0 <= j < k && (#[trigger] table[j]).url@ == url ==> !req_admits(req, table[j].version)
}

/// The record of resolved dependencies. `lock_table` holds the locks grouped
/// by URL, ascending, and within one URL by version, descending; `projects`
/// is the flat list that is written out, by URL and version ascending.
pub struct Lockfile {
    projects: Vec<Lock>,
    pub lock_table: Vec<Lock>,
    force_update: bool,
}

impl Lockfile {
    pub closed spec fn table_view(&self) -> Seq<Lock> {
        self.lock_table@
    }

    pub closed spec fn projects_view(&self) -> Seq<Lock> {
        self.projects@
    }

    pub closed spec fn force_update_view(&self) -> bool {
        self.force_update
    }

    /// A lockfile holding `locks`, as resolution produced them or as they
    /// were read back.
    pub fn new(locks: Vec<Lock>) -> (r: Self)
        ensures
            locks_sorted(r.table_view(), true),
            locks_view(r.table_view()).to_multiset() == locks_view(locks@).to_multiset(),
            r.projects_view().len() == 0,
            !r.force_update_view(),
    {
        Lockfile { projects: Vec::new(), lock_table: sort_locks(locks, true), force_update: false }
    }

    /// The flat list of locks to write out.
    pub fn projects(&self) -> (r: &Vec<Lock>)
        ensures
            r@ == self.projects_view(),
    {
        &self.projects
    }

    /// Sets whether resolution takes the latest releases even where the
    /// table already pins a matching version.
    pub fn set_force_update(&mut self, force_update: bool)
        ensures
            final(self).force_update_view() == force_update,
            final(self).table_view() == old(self).table_view(),
            final(self).projects_view() == old(self).projects_view(),
    {
        self.force_update = force_update;
    }

    /// Lays out the locks of the table as they are written: one flat list by
    /// URL, then version, ascending.
    pub fn sort_projects(&mut self)
        ensures
            locks_sorted(final(self).projects_view(), false),
            locks_view(final(self).projects_view()).to_multiset() == locks_view(old(self).table_view()).to_multiset(),
            final(self).table_view() == old(self).table_view(),
            final(self).force_update_view() == old(self).force_update_view(),
    {
        let mut copy: Vec<Lock> = Vec::new();
        let mut i: usize = 0;
        while i < self.lock_table.len()
            invariant
                i <= self.lock_table@.len(),
                self.lock_table == old(self).lock_table,
                self.force_update == old(self).force_update,
                locks_view(copy@) == locks_view(self.lock_table@).take(i as int),
            decreases self.lock_table@.len() - i,
        {
            let l = self.lock_table[i].duplicate();
            let ghost before = copy@;
            let ghost lv = l.view();
            copy.push(l);
            i += 1;
            proof {
                assert(locks_view(copy@) =~= locks_view(before).push(lv));
                assert(locks_view(copy@) =~= locks_view(self.lock_table@).take(i as int));
            }
        }
        proof {
            assert(locks_view(copy@) =~= locks_view(self.lock_table@));
        }
        self.projects = sort_locks(copy, false);
    }

    /// Finds in the table the first lock at `url` whose version `req` admits,
    /// marks it used and returns its release.
    pub fn resolve_version_from_lockfile(&mut self, url: &String, req: &String) -> (r: Option<Release>)
        ensures
            final(self).force_update_view() == old(self).force_update_view(),
            final(self).projects_view() == old(self).projects_view(),
            r is None ==> final(self).table_view() == old(self).table_view()
                && forall|j: int| 0 <= j < old(self).table_view().len() && (#[trigger] old(self).table_view()[j]).url@ == url@
                    ==> !req_admits(req@, old(self).table_view()[j].version),
            r matches Some(x) ==> exists|k: int| first_admitted(old(self).table_view(), url@, req@, k)
                && x.version == old(self).table_view()[k].version && x.revision@ == old(self).table_view()[k].revision@
                && locks_view(final(self).table_view()) == locks_view(old(self).table_view()).update(
                    k, LockView { used: true, ..old(self).table_view()[k].view() }),
    {
        let mut i: usize = 0;
        while i < self.lock_table.len()
            invariant
                i <= self.lock_table@.len(),
                self.lock_table == old(self).lock_table,
                self.force_update == old(self).force_update,
                self.projects == old(self).projects,
                forall|j: int| 0 <= j < i && (#[trigger] self.lock_table@[j]).url@ == url@ ==> !req_admits(req@, self.lock_table@[j].version),
            decreases self.lock_table@.len() - i,
        {
            if self.lock_table[i].url == *url && req_matches(req.as_str(), self.lock_table[i].version) {
                let release = Release { version: self.lock_table[i].version, revision: self.lock_table[i].revision.clone() };
                let ghost before = self.lock_table@;
                let mut lock = self.lock_table.remove(i);
                lock.used = true;
                let ghost lv = lock.view();
                proof {
                    assert(lv =~= LockView { used: true, ..before[i as int].view() });
                }
                self.lock_table.insert(i, lock);
                proof {
                    assert(self.lock_table@ =~= before.remove(i as int).insert(i as int, lock));
                    assert(first_admitted(before, url@, req@, i as int));
                    assert(locks_view(self.lock_table@) =~= locks_view(before).update(i as int, LockView { used: true, ..before[i as int].view() }));
                    let k = i as int;
                    assert(first_admitted(old(self).table_view(), url@, req@, k)
                        && release.version == old(self).table_view()[k].version && release.revision@ == old(self).table_view()[k].revision@
                        && locks_view(self.table_view()) == locks_view(old(self).table_view()).update(
                            k, LockView { used: true, ..old(self).table_view()[k].view() }));
                }
                return Some(release);
            }
            i += 1;
        }
        None
    }

    /// The release pinned by the table for `req` at `url`, or `None` when the
    /// latest releases must be fetched: when the table pins none, or when an
    /// update is forced. A pinned lock is marked used either way.
    pub fn resolve_version(&mut self, url: &String, req: &String) -> (r: Option<Release>)
        ensures
            final(self).force_update_view() == old(self).force_update_view(),
            old(self).force_update_view() ==> r is None,
            (forall|j: int| 0 <= j < old(self).table_view().len() && (#[trigger] old(self).table_view()[j]).url@ == url@
                ==> !req_admits(req@, old(self).table_view()[j].version)) ==> r is None && final(self).table_view() == old(self).table_view(),
            r matches Some(x) ==> exists|k: int| first_admitted(old(self).table_view(), url@, req@, k)
                && x.version == old(self).table_view()[k].version && x.revision@ == old(self).table_view()[k].revision@,
            !old(self).force_update_view() && (exists|k: int| first_admitted(old(self).table_view(), url@, req@, k)) ==> r is Some,
    {
        let found = self.resolve_version_from_lockfile(url, req);
        if self.force_update {
            None
        } else {
            found
        }
    }

    /// Replaces the table by the locks of a new resolution and tells whether
    /// a dependency was added or removed. A lock that the new resolution did
    /// not produce leaves the table.
    pub fn update(&mut self, locks: Vec<Lock>) -> (r: bool)
        ensures
            r == lock_table_modified(locks_view(old(self).table_view()), locks_view(locks@)),
            locks_sorted(final(self).table_view(), true),
            locks_view(final(self).table_view()).to_multiset() == locks_view(locks@).to_multiset(),
            final(self).force_update_view() == old(self).force_update_view(),
            final(self).projects_view() == old(self).projects_view(),
    {
        let ghost oldv = locks_view(self.lock_table@);
        let ghost newv = locks_view(locks@);
        let mut added = false;
        let mut i: usize = 0;
        while i < locks.len()
            invariant
                i <= locks@.len(),
                oldv == locks_view(self.lock_table@),
                newv == locks_view(locks@),
                added == exists|k: int| 0 <= k < i && !kept(oldv, #[trigger] newv[k]),
            decreases locks@.len() - i,
        {
            let l = &locks[i];
            let mut found = false;
            let mut j: usize = 0;
            while j < self.lock_table.len()
                invariant
                    j <= self.lock_table@.len(),
                    oldv == locks_view(self.lock_table@),
                    newv == locks_view(locks@),
                    i < locks@.len(),
                    *l == locks@[i as int],
                    found == exists|m: int| 0 <= m < j && (#[trigger] oldv[m]).url == newv[i as int].url
                        && oldv[m].version == newv[i as int].version && oldv[m].name == newv[i as int].name,
                decreases self.lock_table@.len() - j,
            {
                let o = &self.lock_table[j];
                if o.url == l.url && o.version == l.version && o.name == l.name {
                    found = true;
                }
                proof {
                    assert(oldv[j as int] == o.view());
                }
                j += 1;
            }
            if !found {
                added = true;
            }
            i += 1;
            proof {
                assert(newv[i - 1] == l.view());
                if !found {
                    assert(!kept(oldv, newv[i - 1]));
                } else {
                    assert(kept(oldv, newv[i - 1]));
                }
            }
        }
        let mut removed = false;
        let mut j: usize = 0;
        while j < self.lock_table.len()
            invariant
                j <= self.lock_table@.len(),
                oldv == locks_view(self.lock_table@),
                newv == locks_view(locks@),
                removed == exists|m: int| 0 <= m < j && !retained(newv, #[trigger] oldv[m]),
            decreases self.lock_table@.len() - j,
        {
            let u = self.lock_table[j].uuid;
            let mut found = false;
            let mut k: usize = 0;
            while k < locks.len()
                invariant
                    k <= locks@.len(),
                    newv == locks_view(locks@),
                    found == exists|n: int| 0 <= n < k && (#[trigger] newv[n]).uuid == u,
                decreases locks@.len() - k,
            {
                if locks[k].uuid == u {
                    found = true;
                }
                proof {
                    assert(newv[k as int].uuid == locks@[k as int].uuid);
                }
                k += 1;
            }
            if !found {
                removed = true;
            }
            j += 1;
            proof {
                assert(oldv[j - 1].uuid == u);
                if !found {
                    assert(!retained(newv, oldv[j - 1]));
                } else {
                    assert(retained(newv, oldv[j - 1]));
                }
            }
        }
        self.lock_table = sort_locks(locks, true);
        added || removed
    }
}

/// Registers a newly resolved lock unless a lock with its UUID already is;
/// tells whether it was registered.
pub fn register_lock(locks: &mut Vec<Lock>, uuid_table: &mut Vec<u128>, lock: Lock) -> (r: bool)
    ensures
        r == !old(uuid_table)@.contains(lock.uuid),
        r ==> locks_view(final(locks)@) == locks_view(old(locks)@).push(lock.view())
            && final(uuid_table)@ == old(uuid_table)@.push(lock.uuid),
        !r ==> final(locks)@ == old(locks)@ && final(uuid_table)@ == old(uuid_table)@,
{
    let mut i: usize = 0;
    while i < uuid_table.len()
        invariant
            i <= uuid_table@.len(),
            forall|j: int| 0 <= j < i ==> uuid_table@[j] != lock.uuid,
        decreases uuid_table@.len() - i,
    {
        if uuid_table[i] == lock.uuid {
            proof {
                assert(uuid_table@.contains(lock.uuid));
            }
            return false;
        }
        i += 1;
    }
    let ghost before = locks@;
    let ghost lv = lock.view();
    uuid_table.push(lock.uuid);
    locks.push(lock);
    proof {
        assert(locks_view(locks@) =~= locks_view(before).push(lv));
    }
    true
}

/// Each lock of `s` comes strictly before the ones that follow it.
pub open spec fn locks_strictly_sorted(s: Seq<LockView>, desc: bool) -> bool {
    forall|i: int, j: int| 0 <= i < j < s.len() ==> view_lt(#[trigger] s[i], #[trigger] s[j], desc)
}

/// The order of `lock_lt`, on views.
pub open spec fn view_lt(a: LockView, b: LockView, desc: bool) -> bool {
    chars_lt(a.url, b.url) || (a.url == b.url && if desc {
        version_lt(b.version, a.version)
    } else {
        version_lt(a.version, b.version)
    })
}

proof fn lemma_sorted_views(s: Seq<Lock>, desc: bool)
    requires
        locks_sorted(s, desc),
    ensures
        forall|i: int, j: int| 0 <= i < j < s.len() ==> !view_lt(#[trigger] locks_view(s)[j], #[trigger] locks_view(s)[i], desc),
{
}

/// Two lists of the same locks that are both in order, one strictly, are
/// the same list.
pub proof fn lemma_sorted_unique(s: Seq<LockView>, t: Seq<LockView>, desc: bool)
    requires
        locks_strictly_sorted(s, desc),
        forall|i: int, j: int| 0 <= i < j < t.len() ==> !view_lt(#[trigger] t[j], #[trigger] t[i], desc),
        s.to_multiset() == t.to_multiset(),
    ensures
        s == t,
    decreases s.len(),
{
    broadcast use vstd::seq_lib::group_to_multiset_ensures;
    if s.len() == 0 {
        assert(t.len() == 0);
        assert(s =~= t);
    } else {
        assert(s.to_multiset().len() == s.len());
        assert(t.to_multiset().len() == t.len());
        assert(t.len() == s.len());
        assert(s.to_multiset().contains(s[0]));
        assert(t.to_multiset().contains(t[0]));
        assert(t.contains(s[0]));
        assert(s.contains(t[0]));
        let j = choose|j: int| 0 <= j < t.len() && t[j] == s[0];
        let i = choose|i: int| 0 <= i < s.len() && s[i] == t[0];
        if s[0] != t[0] {
            assert(i > 0);
            assert(view_lt(s[0], s[i], desc));
            assert(j > 0);
            assert(!view_lt(t[j], t[0], desc));
        }
        assert(s[0] == t[0]);
        let s2 = s.drop_first();
        let t2 = t.drop_first();
        assert(s =~= seq![s[0]] + s2);
        assert(t =~= seq![t[0]] + t2);
        assert(s.to_multiset() =~= s2.to_multiset().insert(s[0])) by {
            vstd::seq_lib::lemma_multiset_commutative(seq![s[0]], s2);
        }
        assert(t.to_multiset() =~= t2.to_multiset().insert(t[0])) by {
            vstd::seq_lib::lemma_multiset_commutative(seq![t[0]], t2);
        }
        assert forall|y: LockView| s2.to_multiset().count(y) == t2.to_multiset().count(y) by {
            assert(s.to_multiset().count(y) == t.to_multiset().count(y));
            assert(s.to_multiset() == s2.to_multiset().insert(s[0]));
            assert(t.to_multiset() == t2.to_multiset().insert(s[0]));
            if y == s[0] {
                assert(s2.to_multiset().insert(s[0]).count(y) == s2.to_multiset().count(y) + 1);
                assert(t2.to_multiset().insert(s[0]).count(y) == t2.to_multiset().count(y) + 1);
            } else {
                assert(s2.to_multiset().insert(s[0]).count(y) == s2.to_multiset().count(y));
                assert(t2.to_multiset().insert(s[0]).count(y) == t2.to_multiset().count(y));
            }
        }
        assert(s2.to_multiset() =~= t2.to_multiset());
        lemma_sorted_unique(s2, t2, desc);
        assert(s =~= t);
    }
}

/// No two locks of `s` share both URL and version.
pub open spec fn keys_distinct(s: Seq<LockView>) -> bool {
    forall|i: int, j: int| 0 <= i < j < s.len() ==> !((#[trigger] s[i]).url == (#[trigger] s[j]).url && s[i].version == s[j].version)
}

proof fn lemma_sorted_distinct_strict(s: Seq<Lock>, desc: bool)
    requires
        locks_sorted(s, desc),
        keys_distinct(locks_view(s)),
    ensures
        locks_strictly_sorted(locks_view(s), desc),
{
    let v = locks_view(s);
    assert forall|i: int, j: int| 0 <= i < j < v.len() implies view_lt(#[trigger] v[i], #[trigger] v[j], desc) by {
        assert(!lock_lt(s[j], s[i], desc));
        if v[i].url != v[j].url {
            lemma_chars_lt_total(v[i].url, v[j].url);
        }
    }
}

/// Writing out a lockfile and reading it back gives the same table: the
/// locks that `sort_projects` lays out, made into a table again by `new`,
/// come in the order they had, provided no two of them share URL and
/// version.
pub proof fn lemma_lockfile_round_trip(table: Seq<Lock>, projects: Seq<Lock>, reloaded: Seq<Lock>)
    requires
        locks_sorted(table, true),
        keys_distinct(locks_view(table)),
        locks_view(projects).to_multiset() == locks_view(table).to_multiset(),
        locks_sorted(reloaded, true),
        locks_view(reloaded).to_multiset() == locks_view(projects).to_multiset(),
    ensures
        locks_view(reloaded) == locks_view(table),
{
    lemma_sorted_distinct_strict(table, true);
    lemma_sorted_views(reloaded, true);
    lemma_sorted_unique(locks_view(table), locks_view(reloaded), true);
}

/// The flat list that is written out depends on the locks alone, not on the
/// order in which resolution found them: two lists in order of the same
/// locks, no two of which share URL and version, are the same.
pub proof fn lemma_projects_determined(first: Seq<Lock>, second: Seq<Lock>)
    requires
        locks_sorted(first, false),
        locks_sorted(second, false),
        keys_distinct(locks_view(first)),
        locks_view(first).to_multiset() == locks_view(second).to_multiset(),
    ensures
        locks_view(first) == locks_view(second),
{
    lemma_sorted_distinct_strict(first, false);
    lemma_sorted_views(second, false);
    lemma_sorted_unique(locks_view(first), locks_view(second), false);
}

/// After `update`, a lock of the old table whose UUID no lock of the new
/// resolution has, being no longer used, is not in the table.
pub proof fn lemma_unused_lock_dropped(table: Seq<Lock>, locks: Seq<Lock>, l: LockView)
    requires
        locks_view(table).to_multiset() == locks_view(locks).to_multiset(),
        !retained(locks_view(locks), l),
    ensures
        !locks_view(table).contains(l),
{
    broadcast use vstd::seq_lib::group_to_multiset_ensures;
    if locks_view(table).contains(l) {
        assert(locks_view(table).to_multiset().contains(l));
        assert(locks_view(locks).contains(l));
        let i = choose|i: int| 0 <= i < locks_view(locks).len() && locks_view(locks)[i] == l;
        assert(retained(locks_view(locks), l));
    }
}

/// Registers a release resolved for the dependency at `url`: its name is
/// the alias if given, else the project's own name, made unique by
/// `assign_name`; its lock is added unless one with its UUID is there.
/// Tells whether the lock was added, in which case the release's own
/// dependencies remain to be resolved.
pub fn register_release(
    locks: &mut Vec<Lock>,
    names: &mut Vec<String>,
    uuids: &mut Vec<u128>,
    url: &String,
    release: Release,
    alias: Option<String>,
    project_name: &String,
    dependencies: Vec<LockDependency>,
    root: bool,
) -> (r: Result<bool, LockfileError>)
    ensures
        ({
            let name = match alias {
                Some(a) => a@,
                None => project_name@,
            };
            &&& r is Err ==> final(names)@ == old(names)@ && final(locks)@ == old(locks)@ && final(uuids)@ == old(uuids)@
                && name_taken(old(names)@, name) && (root || forall|j: nat| j < isize::MAX ==> name_taken(old(names)@, #[trigger] suffixed(name, j)))
            &&& r is Ok ==> {
                let n = final(names)@.last()@;
                let uuid = lock_uuid(url@, release.revision@);
                &&& final(names)@.len() == old(names)@.len() + 1
                &&& final(names)@.drop_last() == old(names)@
                &&& chosen_name(old(names)@, name, root, n)
                &&& r->Ok_0 == !old(uuids)@.contains(uuid)
                &&& r->Ok_0 ==> final(uuids)@ == old(uuids)@.push(uuid) && locks_view(final(locks)@) == locks_view(old(locks)@).push(
                    LockView {
                        name: n,
                        uuid,
                        version: release.version,
                        url: url@,
                        revision: release.revision@,
                        dependencies: dependencies@.map_values(|d: LockDependency| d.view()),
                        used: true,
                    },
                )
                &&& !r->Ok_0 ==> final(uuids)@ == old(uuids)@ && final(locks)@ == old(locks)@
            }
            &&& r matches Err(e) ==> e is NameConflict
        }),
{
    let name = match alias {
        Some(a) => a,
        None => project_name.clone(),
    };
    let name = match assign_name(names, name, root) {
        Ok(n) => n,
        Err(e) => {
            return Err(e);
        },
    };
    let uuid = gen_uuid(url, &release.revision);
    let lock = Lock {
        name,
        uuid,
        version: release.version,
        url: url.clone(),
        revision: release.revision,
        dependencies,
        used: true,
    };
    Ok(register_lock(locks, uuids, lock))
}

/// A version requirement with the name the dependency is registered under.
#[derive(Debug)]
pub struct NamedRequirement {
    pub name: String,
    pub version: String,
}

/// How a manifest asks for the package at one URL: by a version
/// requirement, under a name of its own, or several times under several names.
#[derive(Debug)]
pub enum Dependency {
    Version(String),
    Single(NamedRequirement),
    Multi(Vec<NamedRequirement>),
}

/// The requirements of a dependency, each with its alias, in order.
pub open spec fn requirements_of(dep: Dependency) -> Seq<(Seq<char>, Option<Seq<char>>)> {
    match dep {
        Dependency::Version(req) => seq![(req@, None)],
        Dependency::Single(x) => seq![(x.version@, Some(x.name@))],
        Dependency::Multi(xs) => xs@.map_values(|x: NamedRequirement| (x.version@, Some(x.name@))),
    }
}

/// A version requirement to resolve, and the alias to register its release under.
pub struct Requirement {
    pub req: String,
    pub alias: Option<String>,
}

impl Requirement {
    pub open spec fn view(&self) -> (Seq<char>, Option<Seq<char>>) {
        (self.req@, match self.alias {
            Some(a) => Some(a@),
            None => None,
        })
    }
}

impl Dependency {
    /// The requirements to resolve for this dependency, in order.
    pub fn requirements(&self) -> (r: Vec<Requirement>)
        ensures
            r@.map_values(|x: Requirement| x.view()) == requirements_of(*self),
    {
        let mut r: Vec<Requirement> = Vec::new();
        match self {
            Dependency::Version(req) => {
                r.push(Requirement { req: req.clone(), alias: None });
            },
            Dependency::Single(x) => {
                r.push(Requirement { req: x.version.clone(), alias: Some(x.name.clone()) });
            },
            Dependency::Multi(xs) => {
                let mut i: usize = 0;
                while i < xs.len()
                    invariant
                        i <= xs@.len(),
                        r@.map_values(|x: Requirement| x.view()) == xs@.map_values(|x: NamedRequirement| (x.version@, Some(x.name@))).take(i as int),
                    decreases xs@.len() - i,
                {
                    let ghost before = r@;
                    let q = Requirement { req: xs[i].version.clone(), alias: Some(xs[i].name.clone()) };
                    let ghost qv = q.view();
                    r.push(q);
                    i += 1;
                    proof {
                        assert(r@.map_values(|x: Requirement| x.view()) =~= before.map_values(|x: Requirement| x.view()).push(qv));
                        assert(r@.map_values(|x: Requirement| x.view()) =~= xs@.map_values(|x: NamedRequirement| (x.version@, Some(x.name@))).take(i as int));
                    }
                }
                proof {
                    assert(xs@.map_values(|x: NamedRequirement| (x.version@, Some(x.name@))).take(i as int) =~= xs@.map_values(|x: NamedRequirement| (x.version@, Some(x.name@))));
                }
                return r;
            },
        }
        proof {
            assert(r@.map_values(|x: Requirement| x.view()) =~= requirements_of(*self));
        }
        r
    }
}

} // verus!
