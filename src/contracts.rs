use vstd::prelude::*;
use vstd::multiset::Multiset;
use crate::gas::{has_prefix, starts_with, same_chars};

verus! {

broadcast use vstd::seq_lib::group_to_multiset_ensures, vstd::multiset::group_multiset_axioms,
    vstd::multiset::lemma_multiset_empty_len;

/// What `str::to_lowercase` gives for a string.
pub uninterp spec fn lower_of(s: Seq<char>) -> Seq<char>;

/// What `str::to_uppercase` gives for a string.
pub uninterp spec fn upper_of(s: Seq<char>) -> Seq<char>;

/// Relies on `str::to_lowercase`: the result depends on the characters alone.
#[verifier::external_body]
fn lowercase(s: &str) -> (r: String)
    ensures
        r@ == lower_of(s@),
{
    s.to_lowercase()
}

/// Relies on `str::to_uppercase`: the result depends on the characters alone.
#[verifier::external_body]
fn uppercase(s: &str) -> (r: String)
    ensures
        r@ == upper_of(s@),
{
    s.to_uppercase()
}

/// Relies on `String::push`: appends one character.
#[verifier::external_body]
fn push_char(s: &mut String, c: char)
    ensures
        final(s)@ == old(s)@.push(c),
{
    s.push(c)
}

/// The index just past the last `c` in `s`, or zero where there is none.
pub open spec fn after_last(s: Seq<char>, c: char) -> int
    decreases s.len(),
{
    if s.len() == 0 {
        0
    } else if s.last() == c {
        s.len() as int
    } else {
        after_last(s.drop_last(), c)
    }
}

/// Whether the path's last component is empty or `.`: a trailing `/`, or
/// a `/.` at the end.
pub open spec fn ends_trimmable(s: Seq<char>) -> bool {
    s.len() > 0 && (s.last() == '/' || (s.len() >= 2 && s.last() == '.' && s[s.len() - 2] == '/'))
}

/// The path without trailing separators and trailing `.` components.
pub open spec fn trimmed_path(s: Seq<char>) -> Seq<char>
    decreases s.len(),
{
    if ends_trimmable(s) {
        trimmed_path(s.drop_last())
    } else {
        s
    }
}

/// The last component of a `/`-separated path, with trailing separators and
/// `.` components ignored.
pub open spec fn last_component(path: Seq<char>) -> Seq<char> {
    let t = trimmed_path(path);
    t.subrange(after_last(t, '/'), t.len() as int)
}

/// The file stem of a `/`-separated path, as `std::path::Path::file_stem`
/// reads it on Unix, and empty where there is none: the last component
/// (none where it is empty, `.` or `..`), cut at its last `.` unless that
/// is its first character.
pub open spec fn file_stem_of(path: Seq<char>) -> Seq<char> {
    let name = last_component(path);
    let dot = after_last(name, '.');
    if name.len() == 0 || name == "."@ || name == ".."@ {
        Seq::empty()
    } else if dot <= 1 {
        name
    } else {
        name.subrange(0, dot - 1)
    }
}

proof fn lemma_after_last_bounds(s: Seq<char>, c: char)
    ensures
        0 <= after_last(s, c) <= s.len(),
        after_last(s, c) > 0 ==> s[after_last(s, c) - 1] == c,
    decreases s.len(),
{
    if s.len() > 0 {
        lemma_after_last_bounds(s.drop_last(), c);
    }
}

fn find_after_last(s: &str, c: char) -> (r: usize)
    ensures
        r == after_last(s@, c),
{
    let mut i = s.unicode_len();
    assert(s@.subrange(0, i as int) =~= s@);
    while i > 0
        invariant
            i <= s@.len(),
            after_last(s@, c) == after_last(s@.subrange(0, i as int), c),
        decreases i,
    {
        proof {
            assert(s@.subrange(0, i as int).drop_last() =~= s@.subrange(0, i - 1));
        }
        if s.get_char(i - 1) == c {
            return i;
        }
        i = i - 1;
    }
    i
}

fn trims_at(s: &str, e: usize) -> (r: bool)
    requires
        e <= s@.len(),
    ensures
        r == ends_trimmable(s@.subrange(0, e as int)),
{
    if e == 0 {
        return false;
    }
    let last = s.get_char(e - 1);
    last == '/' || (e >= 2 && last == '.' && s.get_char(e - 2) == '/')
}

fn file_stem(path: &str) -> (r: String)
    ensures
        r@ == file_stem_of(path@),
{
    let n = path.unicode_len();
    let mut e = n;
    assert(path@.subrange(0, n as int) =~= path@);
    while trims_at(path, e)
        invariant
            e <= path@.len(),
            trimmed_path(path@) == trimmed_path(path@.subrange(0, e as int)),
        decreases e,
    {
        assert(path@.subrange(0, e as int).drop_last() =~= path@.subrange(0, e - 1));
        e = e - 1;
    }
    let t = path.substring_char(0, e);
    assert(t@ == trimmed_path(path@));
    proof {
        lemma_after_last_bounds(t@, '/');
    }
    let start = find_after_last(t, '/');
    let name = t.substring_char(start, e);
    proof {
        assert(name@ == last_component(path@));
        reveal_strlit(".");
        reveal_strlit("..");
    }
    if name.unicode_len() == 0 || same_chars(name, ".") || same_chars(name, "..") {
        return String::new();
    }
    let dot = find_after_last(name, '.');
    proof {
        lemma_after_last_bounds(name@, '.');
    }
    if dot <= 1 {
        String::from_str(name)
    } else {
        String::from_str(name.substring_char(0, dot - 1))
    }
}

/// A contract found in a project's sources.
#[derive(Clone, Debug)]
pub struct ContractTarget {
    /// The contract struct's name.
    pub ident: String,
    /// The module that defines it.
    pub module: String,
    /// The source file's path.
    pub source_file: String,
    /// The name of the package generated for it.
    pub generated_package: String,
}

/// A generated crate for one contract.
#[derive(Clone, Debug)]
pub struct GeneratedContract {
    /// The generated crate's directory.
    pub path: String,
    /// The generated crate's package name.
    pub name: String,
    /// Contracts it deploys, each with whether it lives in the same project.
    pub deps: Vec<(String, bool)>,
    /// The source file it was generated from.
    pub original_source_path: String,
}

impl ContractTarget {
    /// Whether a dependency name refers to this contract itself.
    pub fn is_self_reference(&self, dep_name: &String) -> (r: bool)
        ensures
            r == (dep_name@ == self.module@ || dep_name@ == self.generated_package@),
    {
        dep_name.eq(&self.module) || dep_name.eq(&self.generated_package)
    }
}

/// `s` with every `from` replaced by `to`.
pub open spec fn replace_char(s: Seq<char>, from: char, to: char) -> Seq<char> {
    Seq::new(s.len(), |i: int| if s[i] == from { to } else { s[i] })
}

/// Whether `p` occurs in `s` at `i`.
pub open spec fn occurs_at(s: Seq<char>, p: Seq<char>, i: int) -> bool {
    0 <= i && i + p.len() <= s.len() && s.subrange(i, i + p.len()) == p
}

/// The part of `s` after the first occurrence of `p`, if `p` occurs.
pub open spec fn after_first(s: Seq<char>, p: Seq<char>) -> Option<Seq<char>> {
    if exists|i: int| occurs_at(s, p, i) {
        let i = choose|i: int| occurs_at(s, p, i) && forall|j: int| 0 <= j < i ==> !occurs_at(s, p, j);
        Some(s.subrange(i + p.len(), s.len() as int))
    } else {
        None
    }
}

/// The module name a generated module had in its own project: the
/// generated name without the project prefix (the source file's stem, with
/// `-` as `_`, and a `_`), or the generated name where the prefix does not occur.
pub open spec fn original_name(source_path: Seq<char>, gen_mod_name: Seq<char>) -> Seq<char> {
    let prefix = replace_char(file_stem_of(source_path), '-', '_').push('_');
    match after_first(gen_mod_name, prefix) {
        Some(rest) => rest,
        None => gen_mod_name,
    }
}

fn replace_dashes(s: &str) -> (r: String)
    ensures
        r@ == replace_char(s@, '-', '_'),
{
    let n = s.unicode_len();
    let mut out = String::new();
    let mut i: usize = 0;
    while i < n
        invariant
            n == s@.len(),
            i <= n,
            out@ == replace_char(s@, '-', '_').subrange(0, i as int),
        decreases n - i,
    {
        let c = s.get_char(i);
        push_char(&mut out, if c == '-' { '_' } else { c });
        i = i + 1;
        assert(out@ =~= replace_char(s@, '-', '_').subrange(0, i as int));
    }
    assert(replace_char(s@, '-', '_').subrange(0, n as int) =~= replace_char(s@, '-', '_'));
    out
}

fn split_after(s: &str, p: &str) -> (r: Option<String>)
    ensures
        match r {
            Some(rest) => after_first(s@, p@) == Some(rest@),
            None => after_first(s@, p@).is_none(),
        },
{
    let n = s.unicode_len();
    let m = p.unicode_len();
    if m > n {
        assert(forall|i: int| !occurs_at(s@, p@, i));
        return None;
    }
    if m == 0 {
        proof {
            assert(s@.subrange(0, 0) =~= p@);
            assert(occurs_at(s@, p@, 0));
            let k = choose|k: int| occurs_at(s@, p@, k) && forall|j: int| 0 <= j < k ==> !occurs_at(s@, p@, j);
            assert(k == 0);
            assert(s@.subrange(0, n as int) =~= s@);
        }
        return Some(String::from_str(s));
    }
    let mut i: usize = 0;
    while i <= n - m
        invariant
            m >= 1,
            n == s@.len(),
            m == p@.len(),
            m <= n,
            i <= n - m + 1,
            forall|j: int| 0 <= j < i ==> !occurs_at(s@, p@, j),
        decreases n - m + 1 - i,
    {
        let rest = s.substring_char(i, n);
        if starts_with(rest, p) {
            assert(rest@.subrange(0, m as int) =~= s@.subrange(i as int, i + m));
            assert(occurs_at(s@, p@, i as int));
            let tail = s.substring_char(i + m, n);
            let r = String::from_str(tail);
            proof {
                let k = choose|k: int| occurs_at(s@, p@, k) && forall|j: int| 0 <= j < k ==> !occurs_at(s@, p@, j);
                if k < i {
                } else if k > i {
                }
                assert(k == i);
            }
            return Some(r);
        }
        proof {
            if occurs_at(s@, p@, i as int) {
                assert(rest@.subrange(0, m as int) =~= s@.subrange(i as int, i + m));
            }
        }
        i = i + 1;
    }
    assert(forall|j: int| !occurs_at(s@, p@, j));
    None
}

impl GeneratedContract {
    /// The module name this contract had in its own project.
    pub fn get_original_name(&self, gen_mod_name: &String) -> (r: String)
        ensures
            r@ == original_name(self.original_source_path@, gen_mod_name@),
    {
        let stem = file_stem(self.original_source_path.as_str());
        let mut project_name = replace_dashes(stem.as_str());
        push_char(&mut project_name, '_');
        match split_after(gen_mod_name.as_str(), project_name.as_str()) {
            Some(name) => name,
            None => gen_mod_name.clone(),
        }
    }

    /// The deployable code of this contract: the guest marker byte followed
    /// by the compiled deployment image.
    pub fn compile(&self, deploy_image: &[u8]) -> (r: Vec<u8>)
        ensures
            r@ == seq![0xffu8] + deploy_image@,
    {
        let mut out: Vec<u8> = Vec::new();
        out.push(0xff);
        let mut i: usize = 0;
        while i < deploy_image.len()
            invariant
                i <= deploy_image@.len(),
                out@ == seq![0xffu8] + deploy_image@.subrange(0, i as int),
            decreases deploy_image@.len() - i,
        {
            out.push(deploy_image[i]);
            i = i + 1;
            assert(out@ =~= seq![0xffu8] + deploy_image@.subrange(0, i as int));
        }
        assert(deploy_image@.subrange(0, deploy_image@.len() as int) =~= deploy_image@);
        out
    }
}

/// Whether a character separates the parts of a package name.
pub open spec fn is_separator(c: char) -> bool {
    c == '-' || c == '_'
}

/// The parts of a package name between separators (at least one, maybe empty).
pub open spec fn name_parts(s: Seq<char>) -> Seq<Seq<char>>
    decreases s.len(),
{
    if s.len() == 0 {
        seq![Seq::<char>::empty()]
    } else {
        let p = name_parts(s.drop_last());
        if is_separator(s.last()) {
            p.push(Seq::<char>::empty())
        } else {
            p.update(p.len() - 1, p.last().push(s.last()))
        }
    }
}

/// One part of a contract name: all capitals for an `erc` part (in any
/// case), else the first character in capitals.
pub open spec fn part_name(p: Seq<char>) -> Seq<char> {
    if has_prefix(lower_of(p), "erc"@) {
        upper_of(p)
    } else if p.len() == 0 {
        p
    } else {
        upper_of(seq![p[0]]) + p.drop_first()
    }
}

pub open spec fn join_part_names(parts: Seq<Seq<char>>) -> Seq<char>
    decreases parts.len(),
{
    if parts.len() == 0 {
        Seq::empty()
    } else {
        join_part_names(parts.drop_last()) + part_name(parts.last())
    }
}

/// The camel-cased contract identifier of a package name.
pub open spec fn contract_name(package_name: Seq<char>) -> Seq<char> {
    join_part_names(name_parts(package_name))
}

proof fn lemma_parts_nonempty(s: Seq<char>)
    ensures
        name_parts(s).len() >= 1,
    decreases s.len(),
{
    if s.len() > 0 {
        lemma_parts_nonempty(s.drop_last());
    }
}

fn part_name_of(p: &str) -> (r: String)
    ensures
        r@ == part_name(p@),
{
    let lower = lowercase(p);
    proof {
        reveal_strlit("erc");
    }
    if starts_with(lower.as_str(), "erc") {
        return uppercase(p);
    }
    let n = p.unicode_len();
    if n == 0 {
        return String::new();
    }
    let mut first = String::new();
    push_char(&mut first, p.get_char(0));
    assert(first@ =~= seq![p@[0]]);
    let mut out = uppercase(first.as_str());
    let rest = p.substring_char(1, n);
    out.append(rest);
    assert(rest@ =~= p@.drop_first());
    out
}

/// The camel-cased contract identifier of a package name: parts split at
/// `-` and `_`, an `erc` part in capitals, any other part with its first
/// character in capitals.
pub fn get_contract_name(package_name: &str) -> (r: String)
    ensures
        r@ == contract_name(package_name@),
{
    let n = package_name.unicode_len();
    let mut out = String::new();
    let mut cur = String::new();
    let ghost mut done: Seq<Seq<char>> = Seq::empty();
    let mut i: usize = 0;
    proof {
        assert(package_name@.subrange(0, 0) =~= Seq::<char>::empty());
    }
    while i < n
        invariant
            n == package_name@.len(),
            i <= n,
            name_parts(package_name@.subrange(0, i as int)) == done.push(cur@),
            out@ == join_part_names(done),
        decreases n - i,
    {
        let c = package_name.get_char(i);
        proof {
            let s = package_name@.subrange(0, i + 1);
            assert(s.drop_last() =~= package_name@.subrange(0, i as int));
            assert(s.last() == c);
            lemma_parts_nonempty(package_name@.subrange(0, i as int));
        }
        if c == '-' || c == '_' {
            let name = part_name_of(cur.as_str());
            out.append(name.as_str());
            proof {
                assert(done.push(cur@).drop_last() =~= done);
                done = done.push(cur@);
            }
            cur = String::new();
        } else {
            let ghost before = cur@;
            push_char(&mut cur, c);
            proof {
                assert(done.push(before).update(done.len() as int, before.push(c)) =~= done.push(cur@));
            }
        }
        i = i + 1;
    }
    let name = part_name_of(cur.as_str());
    out.append(name.as_str());
    proof {
        assert(package_name@.subrange(0, n as int) =~= package_name@);
        assert(done.push(cur@).drop_last() =~= done);
    }
    out
}

/// Errors of building contracts.
#[derive(Debug)]
pub enum CompileError {
    /// Some contracts wait on each other, or on a contract that is not there.
    CyclicDependency,
}

/// Whether some contract in `placed` has the name `d`.
pub open spec fn names_contain(placed: Seq<GeneratedContract>, d: Seq<char>) -> bool {
    exists|j: int| 0 <= j < placed.len() && (#[trigger] placed[j]).name@ == d
}

/// Whether every dependency of `c` names a contract in `placed`.
pub open spec fn deps_met(c: GeneratedContract, placed: Seq<GeneratedContract>) -> bool {
    forall|k: int| 0 <= k < c.deps@.len() ==> names_contain(placed, (#[trigger] c.deps@[k]).0@)
}

/// Whether every contract's dependencies come before it.
pub open spec fn dependency_ordered(s: Seq<GeneratedContract>) -> bool {
    forall|i: int| 0 <= i < s.len() ==> deps_met(#[trigger] s[i], s.subrange(0, i))
}

fn all_deps_sorted(c: &GeneratedContract, sorted: &Vec<GeneratedContract>) -> (r: bool)
    ensures
        r == deps_met(*c, sorted@),
{
    let mut k: usize = 0;
    while k < c.deps.len()
        invariant
            k <= c.deps@.len(),
            forall|q: int| 0 <= q < k ==> names_contain(sorted@, (#[trigger] c.deps@[q]).0@),
        decreases c.deps@.len() - k,
    {
        let mut found = false;
        let mut j: usize = 0;
        while j < sorted.len()
            invariant
                j <= sorted@.len(),
                k < c.deps@.len(),
                found ==> names_contain(sorted@, c.deps@[k as int].0@),
                !found ==> forall|q: int| 0 <= q < j ==> (#[trigger] sorted@[q]).name@ != c.deps@[k as int].0@,
            decreases sorted@.len() - j,
        {
            if sorted[j].name.eq(&c.deps[k].0) {
                found = true;
            }
            j = j + 1;
        }
        if !found {
            assert(!names_contain(sorted@, c.deps@[k as int].0@));
            return false;
        }
        k = k + 1;
    }
    true
}

/// Orders contracts so that each comes after the contracts it deploys,
/// in rounds: each round places, in order, every remaining contract whose
/// dependencies are all placed. A round that places nothing is a cycle (or
/// a dependency on a contract that is not there).
pub fn sort_generated_contracts(contracts: Vec<GeneratedContract>) -> (r: Result<Vec<GeneratedContract>, CompileError>)
    ensures
        match r {
            Ok(sorted) => sorted@.to_multiset() == contracts@.to_multiset() && dependency_ordered(sorted@),
            Err(e) => e is CyclicDependency,
        },
        dependency_ordered(contracts@) ==> (r matches Ok(sorted) && sorted@ == contracts@),
        r.is_err() ==> exists|placed: Seq<GeneratedContract>, blocked: Seq<GeneratedContract>|
            (placed + blocked).to_multiset() == contracts@.to_multiset() && blocked.len() > 0
            && forall|k: int| 0 <= k < blocked.len() ==> !deps_met(#[trigger] blocked[k], placed),
{
    let ghost input = contracts@;
    let mut sorted: Vec<GeneratedContract> = Vec::new();
    let mut remaining = contracts;
    while remaining.len() > 0
        invariant
            input == contracts@,
            dependency_ordered(input) ==> ((sorted@.len() == 0 && remaining@ == input) || (
            remaining@.len() == 0 && sorted@ == input)),
            sorted@.to_multiset().add(remaining@.to_multiset()) == input.to_multiset(),
            dependency_ordered(sorted@),
        decreases remaining@.len(),
    {
        let initial_len = remaining.len();
        let ghost sorted0 = sorted@;
        let mut next: Vec<GeneratedContract> = Vec::new();
        assert(next@.to_multiset().len() == 0);
        assert(next@.to_multiset() =~= Multiset::empty());
        assert(sorted@.to_multiset().add(next@.to_multiset()) =~= sorted@.to_multiset());
        while remaining.len() > 0
            invariant
                dependency_ordered(input) && sorted0.len() == 0 ==> next@.len() == 0 && sorted@
                    + remaining@ == input,
                sorted@.to_multiset().add(next@.to_multiset()).add(remaining@.to_multiset())
                    == input.to_multiset(),
                dependency_ordered(sorted@),
                sorted0.len() <= sorted@.len(),
                next@.len() + remaining@.len() + (sorted@.len() - sorted0.len()) == initial_len,
                sorted@.len() == sorted0.len() ==> sorted@ == sorted0,
                sorted@.len() == sorted0.len() ==> forall|k: int| 0 <= k < next@.len() ==> !deps_met(#[trigger] next@[k], sorted@),
            decreases remaining@.len(),
        {
            let ghost rem0 = remaining@;
            let ghost sm = sorted@.to_multiset();
            let ghost nm = next@.to_multiset();
            let c = remaining.remove(0);
            proof {
                assert(rem0.remove(0) == remaining@);
                assert(rem0[0] == c);
                assert(rem0.contains(c));
                assert(rem0.to_multiset().count(c) > 0);
                assert(rem0.remove(0).to_multiset() == rem0.to_multiset().remove(rem0[0]));
                assert(remaining@.to_multiset() =~= rem0.to_multiset().remove(c));
                assert(rem0.to_multiset() =~= remaining@.to_multiset().insert(c));
                assert(sm.add(nm).add(rem0.to_multiset()) =~= sm.insert(c).add(nm).add(remaining@.to_multiset()));
                assert(sm.add(nm).add(rem0.to_multiset()) =~= sm.add(nm.insert(c)).add(remaining@.to_multiset()));
            }
            proof {
                if dependency_ordered(input) && sorted0.len() == 0 {
                    let k = sorted@.len() as int;
                    assert(input[k] == c);
                    assert(input.subrange(0, k) =~= sorted@);
                    assert(deps_met(input[k], input.subrange(0, k)));
                }
            }
            if all_deps_sorted(&c, &sorted) {
                let ghost s0 = sorted@;
                sorted.push(c);
                assert(sorted@.to_multiset() =~= sm.insert(c));
                proof {
                    if dependency_ordered(input) && sorted0.len() == 0 {
                        assert(sorted@ + remaining@ =~= s0 + rem0);
                    }
                }
                assert forall|i: int| 0 <= i < sorted@.len() implies deps_met(#[trigger] sorted@[i], sorted@.subrange(0, i)) by {
                    if i < s0.len() {
                        assert(sorted@.subrange(0, i) =~= s0.subrange(0, i));
                    } else {
                        assert(sorted@.subrange(0, i) =~= s0);
                    }
                }
            } else {
                next.push(c);
                assert(next@.to_multiset() =~= nm.insert(c));
            }
        }
        assert(remaining@.to_multiset().len() == 0);
        assert(remaining@.to_multiset() =~= Multiset::empty());
        assert(sorted@.to_multiset().add(next@.to_multiset()).add(remaining@.to_multiset())
            =~= sorted@.to_multiset().add(next@.to_multiset()));
        remaining = next;
        if remaining.len() == initial_len && remaining.len() > 0 {
            proof {
                let placed = sorted@;
                let blocked = remaining@;
                vstd::seq_lib::lemma_multiset_commutative(placed, blocked);
                assert((placed + blocked).to_multiset() == input.to_multiset());
                assert(sorted@.len() == sorted0.len());
                assert(forall|k: int| 0 <= k < blocked.len() ==> !deps_met(#[trigger] blocked[k], placed));
                assert(exists|p: Seq<GeneratedContract>, b: Seq<GeneratedContract>|
                    (p + b).to_multiset() == input.to_multiset() && b.len() > 0
                    && forall|k: int| 0 <= k < b.len() ==> !deps_met(#[trigger] b[k], p)) by {
                    assert((placed + blocked).to_multiset() == input.to_multiset() && blocked.len() > 0
                        && forall|k: int| 0 <= k < blocked.len() ==> !deps_met(#[trigger] blocked[k], placed));
                }
            }
            return Err(CompileError::CyclicDependency);
        }
    }
    assert(remaining@.to_multiset().len() == 0);
    assert(remaining@.to_multiset() =~= Multiset::empty());
    assert(sorted@.to_multiset() =~= input.to_multiset());
    Ok(sorted)
}

/// The deployable dependencies of a project (name, and whether it lives in
/// the same project) as text, without those that refer to `target` itself.
pub open spec fn other_deps(
    deps: Seq<(String, bool)>,
    module: Seq<char>,
    package: Seq<char>,
) -> Seq<(Seq<char>, bool)>
    decreases deps.len(),
{
    if deps.len() == 0 {
        Seq::empty()
    } else {
        let rest = other_deps(deps.drop_last(), module, package);
        let (name, same) = deps.last();
        if name@ == module || name@ == package {
            rest
        } else {
            rest.push((name@, same))
        }
    }
}

/// The deployable dependencies of a project that are not the target itself, in order.
pub fn get_deployable_deps(deployable_deps: &Vec<(String, bool)>, target: &ContractTarget) -> (r: Vec<(String, bool)>)
    ensures
        r@.map_values(|d: (String, bool)| (d.0@, d.1)) == other_deps(
            deployable_deps@,
            target.module@,
            target.generated_package@,
        ),
{
    let mut out: Vec<(String, bool)> = Vec::new();
    let mut i: usize = 0;
    while i < deployable_deps.len()
        invariant
            i <= deployable_deps@.len(),
            out@.map_values(|d: (String, bool)| (d.0@, d.1)) == other_deps(
                deployable_deps@.subrange(0, i as int),
                target.module@,
                target.generated_package@,
            ),
        decreases deployable_deps@.len() - i,
    {
        let (name, same) = &deployable_deps[i];
        proof {
            let s = deployable_deps@.subrange(0, i + 1);
            assert(s.drop_last() =~= deployable_deps@.subrange(0, i as int));
        }
        if !target.is_self_reference(name) {
            let ghost before = out@;
            out.push((name.clone(), *same));
            assert(out@.map_values(|d: (String, bool)| (d.0@, d.1)) =~= before.map_values(
                |d: (String, bool)| (d.0@, d.1),
            ).push((name@, *same)));
        }
        i = i + 1;
    }
    assert(deployable_deps@.subrange(0, deployable_deps@.len() as int) =~= deployable_deps@);
    out
}

/// The names of dependencies joined with `, `.
pub open spec fn joined_names(deps: Seq<(String, bool)>) -> Seq<char>
    decreases deps.len(),
{
    if deps.len() == 0 {
        Seq::empty()
    } else if deps.len() == 1 {
        deps[0].0@
    } else {
        joined_names(deps.drop_last()) + ", "@ + deps.last().0@
    }
}

impl GeneratedContract {
    /// The contract as text: its name, and the names of its dependencies
    /// where it has any.
    pub fn describe(&self) -> (r: String)
        ensures
            r@ == (if self.deps@.len() == 0 {
                self.name@
            } else {
                self.name@ + " with deps: ["@ + joined_names(self.deps@) + "]"@
            }),
    {
        let mut out = String::from_str(self.name.as_str());
        if self.deps.len() == 0 {
            return out;
        }
        out.append(" with deps: [");
        let ghost head = out@;
        let mut i: usize = 0;
        while i < self.deps.len()
            invariant
                i <= self.deps@.len(),
                out@ == head + joined_names(self.deps@.subrange(0, i as int)),
            decreases self.deps@.len() - i,
        {
            proof {
                let s = self.deps@.subrange(0, i + 1);
                assert(s.drop_last() =~= self.deps@.subrange(0, i as int));
            }
            if i > 0 {
                out.append(", ");
            }
            out.append(self.deps[i].0.as_str());
            proof {
                if i == 0 {
                    assert(joined_names(self.deps@.subrange(0, 0)) =~= Seq::<char>::empty());
                }
            }
            i = i + 1;
            assert(out@ =~= head + joined_names(self.deps@.subrange(0, i as int)));
        }
        out.append("]");
        assert(self.deps@.subrange(0, self.deps@.len() as int) =~= self.deps@);
        out
    }
}

} // verus!
