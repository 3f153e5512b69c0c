use vstd::prelude::*;

use crate::config::{
    strs, AppOpGrant, AppOpGrantView, CleanupStep, CleanupStepView, ConfigVariableView, FilePush,
    FilePushView, InstallConfig, InstallConfigView, InstallStep, InstallStepView,
    PermissionGrant, PermissionGrantView, Repository, RepositoryView,
};
use crate::error::{err_of, ErrorView, InstallerError, Result};
use crate::text::{contains, find, find_str, slice, trim, trimmed};
use vstd::seq_lib::lemma_flatten_concat;

verus! {

/// The map of the key/value pairs, later pairs taking precedence.
pub open spec fn pairs_map(s: Seq<(Seq<char>, Seq<char>)>) -> Map<Seq<char>, Seq<char>>
    decreases s.len(),
{
    if s.len() == 0 {
        Map::empty()
    } else {
        pairs_map(s.drop_last()).insert(s.last().0, s.last().1)
    }
}

pub open spec fn pair_views(s: Seq<(String, String)>) -> Seq<(Seq<char>, Seq<char>)> {
    s.map_values(|e: (String, String)| (e.0@, e.1@))
}

pub open spec fn keys_unique(s: Seq<(Seq<char>, Seq<char>)>) -> bool {
    forall|i: int, j: int| 0 <= i < j < s.len() ==> (#[trigger] s[i]).0 != (#[trigger] s[j]).0
}

proof fn lemma_pairs_map_lookup(s: Seq<(Seq<char>, Seq<char>)>, k: Seq<char>)
    requires
        keys_unique(s),
    ensures
        forall|i: int| 0 <= i < s.len() && (#[trigger] s[i]).0 == k ==> pairs_map(s).contains_key(k) && pairs_map(s)[k] == s[i].1,
        (forall|i: int| 0 <= i < s.len() ==> (#[trigger] s[i]).0 != k) ==> !pairs_map(s).contains_key(k),
    decreases s.len(),
{
    if s.len() > 0 {
        let t = s.drop_last();
        assert forall|i: int, j: int| 0 <= i < j < t.len() implies (#[trigger] t[i]).0 != (#[trigger] t[j]).0 by {
            assert(t[i] == s[i] && t[j] == s[j]);
        }
        lemma_pairs_map_lookup(t, k);
        assert forall|i: int| 0 <= i < s.len() && (#[trigger] s[i]).0 == k implies pairs_map(s).contains_key(k) && pairs_map(s)[k] == s[i].1 by {
            if i < s.len() - 1 {
                assert(t[i] == s[i]);
                assert(s[s.len() - 1].0 != k);
            }
        }
        if forall|i: int| 0 <= i < s.len() ==> (#[trigger] s[i]).0 != k {
            assert forall|i: int| 0 <= i < t.len() implies (#[trigger] t[i]).0 != k by {
                assert(t[i] == s[i]);
            }
            assert(s[s.len() - 1].0 != k);
        }
    }
}

/// Values of variables by name.
pub struct VariableMap {
    entries: Vec<(String, String)>,
}

impl View for VariableMap {
    type V = Map<Seq<char>, Seq<char>>;

    closed spec fn view(&self) -> Map<Seq<char>, Seq<char>> {
        pairs_map(pair_views(self.entries@))
    }
}

impl VariableMap {
    /// No name has two entries.
    pub closed spec fn wf(&self) -> bool {
        keys_unique(pair_views(self.entries@))
    }

    pub fn new() -> (r: VariableMap)
        ensures
            r.wf(),
            r@ == Map::<Seq<char>, Seq<char>>::empty(),
    {
        let r = VariableMap { entries: Vec::new() };
        assert(pair_views(r.entries@) =~= Seq::<(Seq<char>, Seq<char>)>::empty());
        r
    }

    fn index_of(&self, key: &str) -> (r: Option<usize>)
        ensures
            match r {
                Some(i) => i < self.entries@.len() && self.entries@[i as int].0@ == key@,
                None => forall|i: int| 0 <= i < self.entries@.len() ==> (#[trigger] self.entries@[i]).0@ != key@,
            },
    {
        let wanted = String::from_str(key);
        let mut i: usize = 0;
        while i < self.entries.len()
            invariant
                wanted@ == key@,
                0 <= i <= self.entries@.len(),
                forall|j: int| 0 <= j < i ==> (#[trigger] self.entries@[j]).0@ != key@,
            decreases self.entries@.len() - i,
        {
            if self.entries[i].0 == wanted {
                return Some(i);
            }
            i = i + 1;
        }
        None
    }

    /// The value of the variable, if it has one.
    pub fn get(&self, key: &str) -> (r: Option<&String>)
        requires
            self.wf(),
        ensures
            r is Some <==> self@.contains_key(key@),
            r is Some ==> r->0@ == self@[key@],
    {
        proof {
            lemma_pairs_map_lookup(pair_views(self.entries@), key@);
        }
        match self.index_of(key) {
            Some(i) => {
                assert(pair_views(self.entries@)[i as int].0 == key@);
                Some(&self.entries[i].1)
            },
            None => {
                assert forall|j: int| 0 <= j < pair_views(self.entries@).len() implies (#[trigger] pair_views(self.entries@)[j]).0 != key@ by {
                    assert(self.entries@[j].0@ != key@);
                }
                None
            },
        }
    }

    pub fn contains_key(&self, key: &str) -> (r: bool)
        requires
            self.wf(),
        ensures
            r == self@.contains_key(key@),
    {
        self.get(key).is_some()
    }

    /// Sets the value of a variable, replacing any earlier value.
    pub fn insert(&mut self, key: String, value: String)
        requires
            old(self).wf(),
        ensures
            final(self).wf(),
            final(self)@ == old(self)@.insert(key@, value@),
    {
        let ghost old_pairs = pair_views(self.entries@);
        match self.index_of(key.as_str()) {
            Some(i) => {
                let ghost kv = key@;
                let ghost vv = value@;
                self.entries.set(i, (key, value));
                let ghost new_pairs = pair_views(self.entries@);
                assert(new_pairs =~= old_pairs.update(i as int, (kv, vv)));
                assert(keys_unique(new_pairs)) by {
                    assert forall|a: int, b: int| 0 <= a < b < new_pairs.len() implies (#[trigger] new_pairs[a]).0 != (#[trigger] new_pairs[b]).0 by {
                        assert(old_pairs[a].0 != old_pairs[b].0);
                    }
                }
                proof {
                    lemma_pairs_map_lookup(old_pairs, kv);
                    assert forall|k: Seq<char>| true implies #[trigger] pairs_map(new_pairs).contains_key(k) == old(self)@.insert(kv, vv).contains_key(k) && (pairs_map(new_pairs).contains_key(k) ==> pairs_map(new_pairs)[k] == old(self)@.insert(kv, vv)[k]) by {
                        lemma_pairs_map_lookup(old_pairs, k);
                        lemma_pairs_map_lookup(new_pairs, k);
                        if k != kv {
                            assert forall|j: int| 0 <= j < new_pairs.len() && (#[trigger] new_pairs[j]).0 == k implies old_pairs[j] == new_pairs[j] by {}
                            if exists|j: int| 0 <= j < old_pairs.len() && (#[trigger] old_pairs[j]).0 == k {
                                let j = choose|j: int| 0 <= j < old_pairs.len() && (#[trigger] old_pairs[j]).0 == k;
                                assert(new_pairs[j] == old_pairs[j]);
                            }
                        } else {
                            assert(new_pairs[i as int].0 == k);
                        }
                    }
                    assert(pairs_map(new_pairs) =~= old(self)@.insert(kv, vv));
                }
            },
            None => {
                let ghost kv = key@;
                let ghost vv = value@;
                self.entries.push((key, value));
                let ghost new_pairs = pair_views(self.entries@);
                assert(new_pairs =~= old_pairs.push((kv, vv)));
                assert(new_pairs.drop_last() =~= old_pairs);
                assert(keys_unique(new_pairs)) by {
                    assert forall|a: int, b: int| 0 <= a < b < new_pairs.len() implies (#[trigger] new_pairs[a]).0 != (#[trigger] new_pairs[b]).0 by {
                        if b == new_pairs.len() - 1 {
                            assert(self.entries@[a].0@ != kv);
                        } else {
                            assert(old_pairs[a].0 != old_pairs[b].0);
                        }
                    }
                }
            },
        }
    }

    /// The number of variables with a value.
    pub fn len(&self) -> (r: usize)
        requires
            self.wf(),
        ensures
            r == self@.dom().len(),
    {
        proof {
            lemma_unique_pairs_len(pair_views(self.entries@));
        }
        self.entries.len()
    }

    /// The variables with a value, as pairs of name and value.
    pub fn pairs(&self) -> (r: Vec<(String, String)>)
        requires
            self.wf(),
        ensures
            r@.len() == self@.dom().len(),
            forall|i: int| 0 <= i < r@.len() ==> self@.contains_key((#[trigger] r@[i]).0@) && self@[r@[i].0@] == r@[i].1@,
            forall|k: Seq<char>| #[trigger] self@.contains_key(k) ==> exists|i: int| 0 <= i < r@.len() && (#[trigger] r@[i]).0@ == k,
    {
        proof {
            lemma_unique_pairs_len(pair_views(self.entries@));
        }
        let mut out: Vec<(String, String)> = Vec::new();
        let mut i: usize = 0;
        while i < self.entries.len()
            invariant
                keys_unique(pair_views(self.entries@)),
                0 <= i <= self.entries@.len(),
                out@.len() == i,
                forall|j: int| 0 <= j < i ==> (#[trigger] out@[j]).0@ == self.entries@[j].0@ && out@[j].1@ == self.entries@[j].1@,
            decreases self.entries@.len() - i,
        {
            let (k, v) = &self.entries[i];
            out.push((k.clone(), v.clone()));
            i = i + 1;
        }
        proof {
            assert forall|i: int| 0 <= i < out@.len() implies self@.contains_key((#[trigger] out@[i]).0@) && self@[out@[i].0@] == out@[i].1@ by {
                lemma_pairs_map_lookup(pair_views(self.entries@), out@[i].0@);
                assert(pair_views(self.entries@)[i].0 == out@[i].0@);
            }
            assert forall|k: Seq<char>| #[trigger] self@.contains_key(k) implies exists|i: int| 0 <= i < out@.len() && (#[trigger] out@[i]).0@ == k by {
                lemma_pairs_map_lookup(pair_views(self.entries@), k);
                if forall|i: int| 0 <= i < out@.len() ==> (#[trigger] out@[i]).0@ != k {
                    assert forall|i: int| 0 <= i < pair_views(self.entries@).len() implies (#[trigger] pair_views(self.entries@)[i]).0 != k by {
                        assert(out@[i].0@ != k);
                    }
                }
            }
        }
        out
    }
}

proof fn lemma_unique_pairs_len(s: Seq<(Seq<char>, Seq<char>)>)
    requires
        keys_unique(s),
    ensures
        pairs_map(s).dom().len() == s.len(),
        pairs_map(s).dom().finite(),
    decreases s.len(),
{
    if s.len() > 0 {
        let t = s.drop_last();
        assert forall|i: int, j: int| 0 <= i < j < t.len() implies (#[trigger] t[i]).0 != (#[trigger] t[j]).0 by {
            assert(t[i] == s[i] && t[j] == s[j]);
        }
        lemma_unique_pairs_len(t);
        lemma_pairs_map_lookup(t, s.last().0);
        assert forall|i: int| 0 <= i < t.len() implies (#[trigger] t[i]).0 != s.last().0 by {
            assert(t[i] == s[i]);
        }
    }
}


// ----- placeholders -----

pub open spec fn open_mark() -> Seq<char> {
    seq!['{', '{']
}

pub open spec fn close_mark() -> Seq<char> {
    seq!['}', '}']
}

/// The state reached by scanning a text for placeholders.
pub enum Scan {
    Done { text: Seq<char>, missing: Seq<Seq<char>> },
    Unterminated,
    EmptyKey,
}

/// Scans `rest` left to right: the text before each `{{` is copied, the
/// trimmed name up to the next `}}` is replaced by its value, and names
/// without a value are collected once each, in order of first appearance.
#[verifier::opaque]
pub open spec fn scan(
    rest: Seq<char>,
    vals: Map<Seq<char>, Seq<char>>,
    out: Seq<char>,
    missing: Seq<Seq<char>>,
) -> Scan
    decreases rest.len(),
{
    match find(rest, open_mark()) {
        None => Scan::Done { text: out + rest, missing },
        Some(s) => if s < 0 || s + 2 > rest.len() {
            Scan::Unterminated
        } else {
            let after = rest.subrange(s + 2, rest.len() as int);
            match find(after, close_mark()) {
                None => Scan::Unterminated,
                Some(e) => if e < 0 || e + 2 > after.len() {
                    Scan::Unterminated
                } else {
                    let key = trimmed(after.subrange(0, e));
                    let next = after.subrange(e + 2, after.len() as int);
                    if key.len() == 0 {
                        Scan::EmptyKey
                    } else if vals.contains_key(key) {
                        scan(next, vals, out + rest.subrange(0, s) + vals[key], missing)
                    } else if missing.contains(key) {
                        scan(next, vals, out + rest.subrange(0, s), missing)
                    } else {
                        scan(next, vals, out + rest.subrange(0, s), missing.push(key))
                    }
                },
            }
        },
    }
}

/// The names joined by `", "`.
pub open spec fn join(names: Seq<Seq<char>>) -> Seq<char>
    decreases names.len(),
{
    if names.len() == 0 {
        Seq::empty()
    } else if names.len() == 1 {
        names[0]
    } else {
        join(names.drop_last()) + ", "@ + names.last()
    }
}

/// The text with its placeholders replaced, or the message of the
/// configuration error that substitution reports.
pub open spec fn placeholders(input: Seq<char>, vals: Map<Seq<char>, Seq<char>>) -> core::result::Result<Seq<char>, Seq<char>> {
    match scan(input, vals, Seq::empty(), Seq::empty()) {
        Scan::Done { text, missing } => if missing.len() == 0 {
            Ok(text)
        } else {
            Err("Missing values for variables: "@ + join(missing))
        },
        Scan::Unterminated => Err("Unterminated variable placeholder"@),
        Scan::EmptyKey => Err("Variable placeholder cannot be empty"@),
    }
}

fn list_has(v: &Vec<String>, s: &String) -> (r: bool)
    ensures
        r == strs(v@).contains(s@),
{
    let mut i: usize = 0;
    while i < v.len()
        invariant
            0 <= i <= v@.len(),
            forall|j: int| 0 <= j < i ==> (#[trigger] v@[j])@ != s@,
        decreases v@.len() - i,
    {
        if v[i] == *s {
            assert(strs(v@)[i as int] == s@);
            return true;
        }
        i = i + 1;
    }
    assert forall|j: int| 0 <= j < strs(v@).len() implies #[trigger] strs(v@)[j] != s@ by {
        assert(v@[j]@ != s@);
    }
    false
}

fn join_names(v: &Vec<String>) -> (r: String)
    ensures
        r@ == join(strs(v@)),
{
    let ghost names = strs(v@);
    let mut out = String::new();
    if v.len() == 0 {
        return out;
    }
    out.append(v[0].as_str());
    assert(names.subrange(0, 1) =~= seq![names[0]]);
    let mut i: usize = 1;
    while i < v.len()
        invariant
            names == strs(v@),
            1 <= i <= v@.len(),
            out@ == join(names.subrange(0, i as int)),
        decreases v@.len() - i,
    {
        out.append(", ");
        out.append(v[i].as_str());
        assert(names.subrange(0, i + 1).drop_last() =~= names.subrange(0, i as int));
        i = i + 1;
    }
    assert(names.subrange(0, v@.len() as int) =~= names);
    out
}

proof fn lemma_scan_plain(rest: Seq<char>, vals: Map<Seq<char>, Seq<char>>, out: Seq<char>, missing: Seq<Seq<char>>)
    requires
        find(rest, open_mark()) is None,
    ensures
        scan(rest, vals, out, missing) == (Scan::Done { text: out + rest, missing }),
{
    reveal(scan);
}

proof fn lemma_scan_unterminated(rest: Seq<char>, vals: Map<Seq<char>, Seq<char>>, out: Seq<char>, missing: Seq<Seq<char>>, s: int)
    requires
        find(rest, open_mark()) == Some(s),
        0 <= s,
        s + 2 <= rest.len(),
        find(rest.subrange(s + 2, rest.len() as int), close_mark()) is None,
    ensures
        scan(rest, vals, out, missing) == Scan::Unterminated,
{
    reveal(scan);
}

proof fn lemma_scan_placeholder(
    rest: Seq<char>,
    vals: Map<Seq<char>, Seq<char>>,
    out: Seq<char>,
    missing: Seq<Seq<char>>,
    s: int,
    e: int,
)
    requires
        find(rest, open_mark()) == Some(s),
        0 <= s,
        s + 2 <= rest.len(),
        find(rest.subrange(s + 2, rest.len() as int), close_mark()) == Some(e),
        0 <= e,
        e + 2 <= rest.len() - s - 2,
    ensures
        ({
            let after = rest.subrange(s + 2, rest.len() as int);
            let key = trimmed(after.subrange(0, e));
            let next = after.subrange(e + 2, after.len() as int);
            scan(rest, vals, out, missing) == if key.len() == 0 {
                Scan::EmptyKey
            } else if vals.contains_key(key) {
                scan(next, vals, out + rest.subrange(0, s) + vals[key], missing)
            } else if missing.contains(key) {
                scan(next, vals, out + rest.subrange(0, s), missing)
            } else {
                scan(next, vals, out + rest.subrange(0, s), missing.push(key))
            }
        }),
{
    reveal(scan);
}

enum ScanStep {
    Finished,
    Continue(String),
    Failed(InstallerError),
}

/// Handles the text up to and including the next placeholder of `rest`.
#[verifier::rlimit(100)]
fn scan_once(rest: &str, values: &VariableMap, out: &mut String, missing: &mut Vec<String>) -> (r: ScanStep)
    requires
        values.wf(),
    ensures
        match r {
            ScanStep::Finished => scan(rest@, values@, old(out)@, strs(old(missing)@)) == (Scan::Done {
                text: final(out)@,
                missing: strs(final(missing)@),
            }),
            ScanStep::Continue(next) => next@.len() < rest@.len() && scan(
                rest@,
                values@,
                old(out)@,
                strs(old(missing)@),
            ) == scan(next@, values@, final(out)@, strs(final(missing)@)),
            ScanStep::Failed(e) => {
                ||| scan(rest@, values@, old(out)@, strs(old(missing)@)) == Scan::Unterminated
                    && e@ == ErrorView::Config("Unterminated variable placeholder"@)
                ||| scan(rest@, values@, old(out)@, strs(old(missing)@)) == Scan::EmptyKey
                    && e@ == ErrorView::Config("Variable placeholder cannot be empty"@)
            },
        },
{
    proof {
        reveal_strlit("{{");
        reveal_strlit("}}");
        assert("{{"@ =~= open_mark());
        assert("}}"@ =~= close_mark());
    }
    let ghost vals = values@;
    let ghost m0 = strs(missing@);
    let ghost o0 = out@;
    let n = rest.unicode_len();
    match find_str(rest, "{{") {
        None => {
            proof {
                lemma_scan_plain(rest@, vals, o0, m0);
            }
            out.append(rest);
            ScanStep::Finished
        },
        Some(s) => {
            let before = slice(rest, 0, s);
            let after = slice(rest, s + 2, n);
            let m = after.as_str().unicode_len();
            match find_str(after.as_str(), "}}") {
                None => {
                    proof {
                        lemma_scan_unterminated(rest@, vals, o0, m0, s as int);
                    }
                    ScanStep::Failed(
                        InstallerError::Config(String::from_str("Unterminated variable placeholder")),
                    )
                },
                Some(e) => {
                    let raw = slice(after.as_str(), 0, e);
                    let key = trim(raw.as_str());
                    let next = slice(after.as_str(), e + 2, m);
                    proof {
                        lemma_scan_placeholder(rest@, vals, o0, m0, s as int, e as int);
                    }
                    if key.as_str().unicode_len() == 0 {
                        return ScanStep::Failed(
                            InstallerError::Config(String::from_str("Variable placeholder cannot be empty")),
                        );
                    }
                    out.append(before.as_str());
                    match values.get(key.as_str()) {
                        Some(v) => {
                            out.append(v.as_str());
                        },
                        None => {
                            if !list_has(missing, &key) {
                                let ghost prev = strs(missing@);
                                let ghost kv = key@;
                                missing.push(key);
                                assert(strs(missing@) =~= prev.push(kv));
                            }
                        },
                    }
                    ScanStep::Continue(next)
                },
            }
        },
    }
}

/// Replaces each `{{ name }}` placeholder of the text by the value of the
/// variable.
pub fn replace_placeholders(input: &str, values: &VariableMap) -> (r: Result<String>)
    requires
        values.wf(),
    ensures
        match placeholders(input@, values@) {
            Ok(t) => r is Ok && r->Ok_0@ == t,
            Err(m) => err_of(r) == Some(ErrorView::Config(m)),
        },
{
    let ghost vals = values@;
    let mut rest = String::from_str(input);
    let mut out = String::new();
    let mut missing: Vec<String> = Vec::new();
    assert(strs(missing@) =~= Seq::<Seq<char>>::empty());
    loop
        invariant_except_break
            scan(input@, vals, Seq::empty(), Seq::empty()) == scan(rest@, vals, out@, strs(missing@)),
        invariant
            values.wf(),
            vals == values@,
        ensures
            scan(input@, vals, Seq::empty(), Seq::empty()) == (Scan::Done {
                text: out@,
                missing: strs(missing@),
            }),
        decreases rest@.len(),
    {
        match scan_once(rest.as_str(), values, &mut out, &mut missing) {
            ScanStep::Finished => {
                break;
            },
            ScanStep::Continue(next) => {
                rest = next;
            },
            ScanStep::Failed(e) => {
                return Err(e);
            },
        }
    }
    if missing.len() > 0 {
        let mut msg = String::from_str("Missing values for variables: ");
        let names = join_names(&missing);
        msg.append(names.as_str());
        return Err(InstallerError::Config(msg));
    }
    Ok(out)
}


// ----- resolution -----

/// The value a variable takes: the override if there is one, else its
/// default.
pub open spec fn value_for(v: ConfigVariableView, overrides: Map<Seq<char>, Seq<char>>) -> Option<Seq<char>> {
    if overrides.contains_key(v.name) {
        Some(overrides[v.name])
    } else {
        v.default
    }
}

/// The values of the declared variables that have one.
pub open spec fn resolved(vars: Seq<ConfigVariableView>, overrides: Map<Seq<char>, Seq<char>>) -> Map<Seq<char>, Seq<char>>
    decreases vars.len(),
{
    if vars.len() == 0 {
        Map::empty()
    } else {
        let m = resolved(vars.drop_last(), overrides);
        match value_for(vars.last(), overrides) {
            Some(x) => m.insert(vars.last().name, x),
            None => m,
        }
    }
}

pub open spec fn declared(vars: Seq<ConfigVariableView>, k: Seq<char>) -> bool {
    exists|i: int| 0 <= i < vars.len() && #[trigger] vars[i].name == k
}

pub open spec fn unresolved(vars: Seq<ConfigVariableView>, overrides: Map<Seq<char>, Seq<char>>, i: int) -> bool {
    vars[i].required && value_for(vars[i], overrides) is None
}

/// The first required variable that has neither an override nor a default.
pub open spec fn first_unresolved(vars: Seq<ConfigVariableView>, overrides: Map<Seq<char>, Seq<char>>) -> Option<int> {
    if exists|i: int| 0 <= i < vars.len() && #[trigger] unresolved(vars, overrides, i) {
        Some(choose|i: int| 0 <= i < vars.len() && #[trigger] unresolved(vars, overrides, i) && forall|j: int| 0 <= j < i ==> !#[trigger] unresolved(vars, overrides, j))
    } else {
        None
    }
}

pub open spec fn unknown_override_message(k: Seq<char>) -> Seq<char> {
    "Unknown variable override '"@ + k + "'"@
}

pub open spec fn missing_required_message(k: Seq<char>) -> Seq<char> {
    "Missing value for required variable '"@ + k + "'"@
}

impl InstallConfig {
    /// The value of each declared variable: an override where given, else
    /// the default. Overrides of undeclared names and required variables
    /// left without a value are configuration errors.
    pub fn resolve_variables(&self, overrides: &VariableMap) -> (r: Result<VariableMap>)
        requires
            overrides.wf(),
        ensures
            (exists|k: Seq<char>| #[trigger] overrides@.contains_key(k) && !declared(self@.variables, k)) ==> exists|k: Seq<char>|
                #[trigger] overrides@.contains_key(k) && !declared(self@.variables, k) && err_of(r) == Some(ErrorView::Config(unknown_override_message(k))),
            (forall|k: Seq<char>| #[trigger] overrides@.contains_key(k) ==> declared(self@.variables, k)) ==> match first_unresolved(self@.variables, overrides@) {
                Some(i) => err_of(r) == Some(ErrorView::Config(missing_required_message(self@.variables[i].name))),
                None => r is Ok && r->Ok_0.wf() && r->Ok_0@ == resolved(self@.variables, overrides@),
            },
    {
        let ghost vars = self@.variables;
        let ghost ov = overrides@;
        let pairs = overrides.pairs();
        let mut p: usize = 0;
        while p < pairs.len()
            invariant
                vars == self@.variables,
                ov == overrides@,
                forall|q: int| 0 <= q < pairs@.len() ==> ov.contains_key((#[trigger] pairs@[q]).0@),
                0 <= p <= pairs@.len(),
                forall|q: int| 0 <= q < p ==> declared(vars, (#[trigger] pairs@[q]).0@),
            decreases pairs@.len() - p,
        {
            let key = &pairs[p].0;
            assert(ov.contains_key(key@));
            let mut found = false;
            let mut i: usize = 0;
            while i < self.variables.len()
                invariant
                    vars == self@.variables,
                    ov == overrides@,
                    ov.contains_key(key@),
                    0 <= i <= vars.len(),
                    found ==> declared(vars, key@),
                    !found ==> forall|j: int| 0 <= j < i ==> #[trigger] vars[j].name != key@,
                decreases vars.len() - i,
            {
                assert(vars[i as int] == self.variables@[i as int]@);
                if self.variables[i].name == *key {
                    assert(vars[i as int].name == key@);
                    found = true;
                }
                i = i + 1;
            }
            if !found {
                assert(ov.contains_key(key@) && !declared(vars, key@));
                let mut m = String::from_str("Unknown variable override '");
                m.append(key.as_str());
                m.append("'");
                return Err(InstallerError::Config(m));
            }
            p = p + 1;
        }
        assert forall|k: Seq<char>| #[trigger] ov.contains_key(k) implies declared(vars, k) by {
            let q = choose|q: int| 0 <= q < pairs@.len() && (#[trigger] pairs@[q]).0@ == k;
        }
        let mut out = VariableMap::new();
        let mut i: usize = 0;
        assert(vars.subrange(0, 0) =~= Seq::<ConfigVariableView>::empty());
        while i < self.variables.len()
            invariant
                vars == self@.variables,
                ov == overrides@,
                overrides.wf(),
                out.wf(),
                0 <= i <= vars.len(),
                out@ == resolved(vars.subrange(0, i as int), ov),
                forall|j: int| 0 <= j < i ==> !#[trigger] unresolved(vars, ov, j),
                forall|k: Seq<char>| #[trigger] ov.contains_key(k) ==> declared(vars, k),
            decreases vars.len() - i,
        {
            let v = &self.variables[i];
            assert(vars[i as int] == v@);
            assert(vars.subrange(0, i + 1).drop_last() =~= vars.subrange(0, i as int));
            let value: Option<String> = match overrides.get(v.name.as_str()) {
                Some(x) => Some(x.clone()),
                None => match &v.default {
                    Some(d) => Some(d.clone()),
                    None => None,
                },
            };
            match value {
                Some(x) => {
                    out.insert(v.name.clone(), x);
                },
                None => {
                    if v.required {
                        proof {
                            assert(unresolved(vars, ov, i as int));
                            let f = first_unresolved(vars, ov)->0;
                            assert(f == i) by {
                                if f < i {
                                    assert(!unresolved(vars, ov, f));
                                } else if f > i {
                                }
                            }
                        }
                        let mut m = String::from_str("Missing value for required variable '");
                        m.append(v.name.as_str());
                        m.append("'");
                        return Err(InstallerError::Config(m));
                    }
                },
            }
            i = i + 1;
        }
        assert(vars.subrange(0, vars.len() as int) =~= vars);
        assert(first_unresolved(vars, ov) is None);
        Ok(out)
    }
}


// ----- substitution over a plan -----

/// The text after substitution, or the text itself where substitution fails.
pub open spec fn sub_text(s: Seq<char>, vals: Map<Seq<char>, Seq<char>>) -> Seq<char> {
    match placeholders(s, vals) {
        Ok(t) => t,
        Err(_) => s,
    }
}

pub open spec fn sub_texts(v: Seq<Seq<char>>, vals: Map<Seq<char>, Seq<char>>) -> Seq<Seq<char>> {
    v.map_values(|s: Seq<char>| sub_text(s, vals))
}

/// The error of the first text, in order, whose substitution fails.
pub open spec fn first_error(texts: Seq<Seq<char>>, vals: Map<Seq<char>, Seq<char>>) -> Option<Seq<char>>
    decreases texts.len(),
{
    if texts.len() == 0 {
        None
    } else {
        match placeholders(texts[0], vals) {
            Err(m) => Some(m),
            Ok(_) => first_error(texts.drop_first(), vals),
        }
    }
}

pub open spec fn opt_texts(o: Option<Seq<char>>) -> Seq<Seq<char>> {
    match o {
        Some(t) => seq![t],
        None => Seq::empty(),
    }
}

pub open spec fn file_texts(f: FilePushView) -> Seq<Seq<char>> {
    seq![f.local, f.remote] + opt_texts(f.chmod)
}

pub open spec fn grant_texts(g: PermissionGrantView) -> Seq<Seq<char>> {
    seq![g.package, g.permission]
}

pub open spec fn op_texts(o: AppOpGrantView) -> Seq<Seq<char>> {
    seq![o.package, o.operation, o.mode]
}

/// The texts of a step that substitution rewrites, in order.
pub open spec fn step_texts(s: InstallStepView) -> Seq<Seq<char>> {
    match s {
        InstallStepView::CreateDirectories { paths } => paths,
        InstallStepView::InstallApks { priority_order, exclude_patterns, .. } => priority_order
            + exclude_patterns,
        InstallStepView::PushFiles { files } => files.map_values(|f: FilePushView| file_texts(f)).flatten(),
        InstallStepView::GrantPermissions { grants } => grants.map_values(
            |g: PermissionGrantView| grant_texts(g),
        ).flatten(),
        InstallStepView::SetAppOps { ops } => ops.map_values(|o: AppOpGrantView| op_texts(o)).flatten(),
        InstallStepView::RunCommand { command, .. } => seq![command],
        InstallStepView::SetLauncher { component } => seq![component],
        InstallStepView::CreateConfig { path, content, .. } => seq![path, content],
    }
}

pub open spec fn cleanup_texts(c: CleanupStepView) -> Seq<Seq<char>> {
    match c {
        CleanupStepView::UninstallPackages { patterns } => patterns,
        CleanupStepView::RemoveDirectories { paths } => paths,
        CleanupStepView::RemoveDirectoriesIfEmpty { paths } => paths,
        CleanupStepView::RemoveFiles { paths } => paths,
    }
}

pub open spec fn repo_texts(r: RepositoryView) -> Seq<Seq<char>> {
    r.cleanup.map_values(|c: CleanupStepView| cleanup_texts(c)).flatten() + r.installation.map_values(
        |s: InstallStepView| step_texts(s),
    ).flatten()
}

/// Every text of the plan that substitution rewrites, in the order it
/// rewrites them: the plan's name, each repository's cleanup and
/// installation steps, then the global steps.
pub open spec fn config_texts(c: InstallConfigView) -> Seq<Seq<char>> {
    seq![c.name] + c.repositories.map_values(|r: RepositoryView| repo_texts(r)).flatten()
        + c.global_setup.map_values(|s: InstallStepView| step_texts(s)).flatten()
}

pub open spec fn sub_file(f: FilePushView, vals: Map<Seq<char>, Seq<char>>) -> FilePushView {
    FilePushView {
        local: sub_text(f.local, vals),
        remote: sub_text(f.remote, vals),
        chmod: match f.chmod {
            Some(c) => Some(sub_text(c, vals)),
            None => None,
        },
    }
}

pub open spec fn sub_grant(g: PermissionGrantView, vals: Map<Seq<char>, Seq<char>>) -> PermissionGrantView {
    PermissionGrantView { package: sub_text(g.package, vals), permission: sub_text(g.permission, vals) }
}

pub open spec fn sub_op(o: AppOpGrantView, vals: Map<Seq<char>, Seq<char>>) -> AppOpGrantView {
    AppOpGrantView {
        package: sub_text(o.package, vals),
        operation: sub_text(o.operation, vals),
        mode: sub_text(o.mode, vals),
    }
}

/// The step with each of its texts substituted.
pub open spec fn sub_step(s: InstallStepView, vals: Map<Seq<char>, Seq<char>>) -> InstallStepView {
    match s {
        InstallStepView::CreateDirectories { paths } => InstallStepView::CreateDirectories {
            paths: sub_texts(paths, vals),
        },
        InstallStepView::InstallApks { priority_order, allow_failures, exclude_patterns } =>
            InstallStepView::InstallApks {
            priority_order: sub_texts(priority_order, vals),
            allow_failures,
            exclude_patterns: sub_texts(exclude_patterns, vals),
        },
        InstallStepView::PushFiles { files } => InstallStepView::PushFiles {
            files: files.map_values(|f: FilePushView| sub_file(f, vals)),
        },
        InstallStepView::GrantPermissions { grants } => InstallStepView::GrantPermissions {
            grants: grants.map_values(|g: PermissionGrantView| sub_grant(g, vals)),
        },
        InstallStepView::SetAppOps { ops } => InstallStepView::SetAppOps {
            ops: ops.map_values(|o: AppOpGrantView| sub_op(o, vals)),
        },
        InstallStepView::RunCommand { command, ignore_failure } => InstallStepView::RunCommand {
            command: sub_text(command, vals),
            ignore_failure,
        },
        InstallStepView::SetLauncher { component } => InstallStepView::SetLauncher {
            component: sub_text(component, vals),
        },
        InstallStepView::CreateConfig { path, content, only_if_missing } =>
            InstallStepView::CreateConfig {
            path: sub_text(path, vals),
            content: sub_text(content, vals),
            only_if_missing,
        },
    }
}

pub open spec fn sub_cleanup(c: CleanupStepView, vals: Map<Seq<char>, Seq<char>>) -> CleanupStepView {
    match c {
        CleanupStepView::UninstallPackages { patterns } => CleanupStepView::UninstallPackages {
            patterns: sub_texts(patterns, vals),
        },
        CleanupStepView::RemoveDirectories { paths } => CleanupStepView::RemoveDirectories {
            paths: sub_texts(paths, vals),
        },
        CleanupStepView::RemoveDirectoriesIfEmpty { paths } =>
            CleanupStepView::RemoveDirectoriesIfEmpty { paths: sub_texts(paths, vals) },
        CleanupStepView::RemoveFiles { paths } => CleanupStepView::RemoveFiles {
            paths: sub_texts(paths, vals),
        },
    }
}

pub open spec fn sub_repo(r: RepositoryView, vals: Map<Seq<char>, Seq<char>>) -> RepositoryView {
    RepositoryView {
        cleanup: r.cleanup.map_values(|c: CleanupStepView| sub_cleanup(c, vals)),
        installation: r.installation.map_values(|s: InstallStepView| sub_step(s, vals)),
        ..r
    }
}

/// The plan with each of its texts substituted.
pub open spec fn sub_config(c: InstallConfigView, vals: Map<Seq<char>, Seq<char>>) -> InstallConfigView {
    InstallConfigView {
        name: sub_text(c.name, vals),
        repositories: c.repositories.map_values(|r: RepositoryView| sub_repo(r, vals)),
        global_setup: c.global_setup.map_values(|s: InstallStepView| sub_step(s, vals)),
        ..c
    }
}

proof fn lemma_first_error_concat(a: Seq<Seq<char>>, b: Seq<Seq<char>>, vals: Map<Seq<char>, Seq<char>>)
    ensures
        first_error(a + b, vals) == if first_error(a, vals) is Some {
            first_error(a, vals)
        } else {
            first_error(b, vals)
        },
    decreases a.len(),
{
    if a.len() == 0 {
        assert(a + b =~= b);
    } else {
        assert((a + b).drop_first() =~= a.drop_first() + b);
        assert((a + b)[0] == a[0]);
        lemma_first_error_concat(a.drop_first(), b, vals);
    }
}

/// Walking a list of items whose texts are `ts`: once the items before `i`
/// substituted without error, item `i` decides.
proof fn lemma_flat_step(ts: Seq<Seq<Seq<char>>>, i: int, vals: Map<Seq<char>, Seq<char>>)
    requires
        0 <= i < ts.len(),
        first_error(ts.subrange(0, i).flatten(), vals) is None,
    ensures
        first_error(ts.subrange(0, i + 1).flatten(), vals) == first_error(ts[i], vals),
        first_error(ts[i], vals) is Some ==> first_error(ts.flatten(), vals) == first_error(ts[i], vals),
{
    assert(ts.subrange(0, i + 1) =~= ts.subrange(0, i).push(ts[i]));
    ts.subrange(0, i).lemma_flatten_push(ts[i]);
    lemma_first_error_concat(ts.subrange(0, i).flatten(), ts[i], vals);
    assert(ts =~= ts.subrange(0, i + 1) + ts.subrange(i + 1, ts.len() as int));
    lemma_flatten_concat(ts.subrange(0, i + 1), ts.subrange(i + 1, ts.len() as int));
    lemma_first_error_concat(ts.subrange(0, i + 1).flatten(), ts.subrange(i + 1, ts.len() as int).flatten(), vals);
}

proof fn lemma_first_error_single(x: Seq<char>, vals: Map<Seq<char>, Seq<char>>)
    ensures
        first_error(seq![x], vals) == match placeholders(x, vals) {
            Err(m) => Some(m),
            Ok(_) => None::<Seq<char>>,
        },
{
    assert(seq![x].drop_first() =~= Seq::<Seq<char>>::empty());
    assert(first_error(Seq::<Seq<char>>::empty(), vals) is None);
}

proof fn lemma_first_error_step(t: Seq<Seq<char>>, i: int, vals: Map<Seq<char>, Seq<char>>)
    requires
        0 <= i < t.len(),
        first_error(t.subrange(0, i), vals) is None,
    ensures
        first_error(t.subrange(0, i + 1), vals) == first_error(seq![t[i]], vals),
        first_error(seq![t[i]], vals) is Some ==> first_error(t, vals) == first_error(seq![t[i]], vals),
{
    assert(t.subrange(0, i + 1) =~= t.subrange(0, i) + seq![t[i]]);
    lemma_first_error_concat(t.subrange(0, i), seq![t[i]], vals);
    assert(t =~= t.subrange(0, i + 1) + t.subrange(i + 1, t.len() as int));
    lemma_first_error_concat(t.subrange(0, i + 1), t.subrange(i + 1, t.len() as int), vals);
}

/// Substitutes the placeholders of one text in place; on failure the text
/// is left as it was.
pub fn substitute_string(target: &mut String, values: &VariableMap) -> (r: Result<()>)
    requires
        values.wf(),
    ensures
        match placeholders(old(target)@, values@) {
            Ok(t) => r is Ok && final(target)@ == t,
            Err(m) => err_of(r) == Some(ErrorView::Config(m)) && final(target)@ == old(target)@,
        },
{
    match replace_placeholders(target.as_str(), values) {
        Ok(t) => {
            *target = t;
            Ok(())
        },
        Err(e) => Err(e),
    }
}

/// Substitutes each text of the list in order, stopping at the first
/// failure.
pub fn substitute_strings(strings: &mut Vec<String>, values: &VariableMap) -> (r: Result<()>)
    requires
        values.wf(),
    ensures
        match first_error(strs(old(strings)@), values@) {
            None => r is Ok && strs(final(strings)@) == sub_texts(strs(old(strings)@), values@),
            Some(m) => err_of(r) == Some(ErrorView::Config(m)),
        },
{
    let ghost t = strs(strings@);
    let ghost vals = values@;
    let mut i: usize = 0;
    assert(t.subrange(0, 0) =~= Seq::<Seq<char>>::empty());
    while i < strings.len()
        invariant
            values.wf(),
            vals == values@,
            t == strs(old(strings)@),
            t.len() == strings@.len(),
            0 <= i <= t.len(),
            first_error(t.subrange(0, i as int), vals) is None,
            forall|j: int| 0 <= j < i ==> (#[trigger] strings@[j])@ == sub_text(t[j], vals),
            forall|j: int| i <= j < t.len() ==> (#[trigger] strings@[j])@ == t[j],
        decreases t.len() - i,
    {
        proof {
            lemma_first_error_step(t, i as int, vals);
            lemma_first_error_single(t[i as int], vals);
        }
        assert(strings@[i as int]@ == t[i as int]);
        let res = substitute_string(&mut strings[i], values);
        match res {
            Ok(()) => {},
            Err(e) => {
                assert(first_error(t, vals) == Some(e@->Config_0));
                return Err(e);
            },
        }
        i = i + 1;
    }
    assert(t.subrange(0, t.len() as int) =~= t);
    assert(strs(strings@) =~= sub_texts(t, vals));
    Ok(())
}


fn substitute_file(f: &mut FilePush, values: &VariableMap) -> (r: Result<()>)
    requires
        values.wf(),
    ensures
        match first_error(file_texts(old(f)@), values@) {
            None => r is Ok && final(f)@ == sub_file(old(f)@, values@),
            Some(m) => err_of(r) == Some(ErrorView::Config(m)),
        },
{
    let ghost vals = values@;
    let ghost old_f = f@;
    proof {
        assert(file_texts(old_f) =~= seq![old_f.local] + (seq![old_f.remote] + opt_texts(old_f.chmod)));
        lemma_first_error_concat(seq![old_f.local], seq![old_f.remote] + opt_texts(old_f.chmod), vals);
        lemma_first_error_concat(seq![old_f.remote], opt_texts(old_f.chmod), vals);
        lemma_first_error_single(old_f.local, vals);
        lemma_first_error_single(old_f.remote, vals);
        assert(first_error(Seq::<Seq<char>>::empty(), vals) is None);
        if let Some(c) = old_f.chmod {
            lemma_first_error_single(c, vals);
        }
    }
    substitute_string(&mut f.local, values)?;
    substitute_string(&mut f.remote, values)?;
    match &mut f.chmod {
        Some(c) => {
            substitute_string(c, values)?;
        },
        None => {},
    }
    Ok(())
}

fn substitute_files(files: &mut Vec<FilePush>, values: &VariableMap) -> (r: Result<()>)
    requires
        values.wf(),
    ensures
        match first_error(old(files)@.map_values(|f: FilePush| file_texts(f@)).flatten(), values@) {
            None => r is Ok && final(files)@.map_values(|f: FilePush| f@) == old(files)@.map_values(
                |f: FilePush| sub_file(f@, values@),
            ),
            Some(m) => err_of(r) == Some(ErrorView::Config(m)),
        },
{
    let ghost vals = values@;
    let ghost items = files@;
    let ghost ts = items.map_values(|f: FilePush| file_texts(f@));
    let mut i: usize = 0;
    assert(ts.subrange(0, 0) =~= Seq::<Seq<Seq<char>>>::empty());
    while i < files.len()
        invariant
            values.wf(),
            vals == values@,
            items == old(files)@,
            ts == items.map_values(|f: FilePush| file_texts(f@)),
            files@.len() == items.len(),
            0 <= i <= items.len(),
            first_error(ts.subrange(0, i as int).flatten(), vals) is None,
            forall|j: int| 0 <= j < i ==> (#[trigger] files@[j])@ == sub_file(items[j]@, vals),
            forall|j: int| i <= j < items.len() ==> #[trigger] files@[j] == items[j],
        decreases items.len() - i,
    {
        proof {
            lemma_flat_step(ts, i as int, vals);
        }
        substitute_file(&mut files[i], values)?;
        i = i + 1;
    }
    assert(ts.subrange(0, items.len() as int) =~= ts);
    assert(files@.map_values(|f: FilePush| f@) =~= items.map_values(|f: FilePush| sub_file(f@, vals)));
    Ok(())
}

fn substitute_grant(g: &mut PermissionGrant, values: &VariableMap) -> (r: Result<()>)
    requires
        values.wf(),
    ensures
        match first_error(grant_texts(old(g)@), values@) {
            None => r is Ok && final(g)@ == sub_grant(old(g)@, values@),
            Some(m) => err_of(r) == Some(ErrorView::Config(m)),
        },
{
    let ghost vals = values@;
    let ghost o = g@;
    proof {
        assert(grant_texts(o) =~= seq![o.package] + seq![o.permission]);
        lemma_first_error_concat(seq![o.package], seq![o.permission], vals);
        lemma_first_error_single(o.package, vals);
        lemma_first_error_single(o.permission, vals);
    }
    substitute_string(&mut g.package, values)?;
    substitute_string(&mut g.permission, values)?;
    Ok(())
}

fn substitute_grants(grants: &mut Vec<PermissionGrant>, values: &VariableMap) -> (r: Result<()>)
    requires
        values.wf(),
    ensures
        match first_error(old(grants)@.map_values(|g: PermissionGrant| grant_texts(g@)).flatten(), values@) {
            None => r is Ok && final(grants)@.map_values(|g: PermissionGrant| g@) == old(grants)@.map_values(
                |g: PermissionGrant| sub_grant(g@, values@),
            ),
            Some(m) => err_of(r) == Some(ErrorView::Config(m)),
        },
{
    let ghost vals = values@;
    let ghost items = grants@;
    let ghost ts = items.map_values(|g: PermissionGrant| grant_texts(g@));
    let mut i: usize = 0;
    assert(ts.subrange(0, 0) =~= Seq::<Seq<Seq<char>>>::empty());
    while i < grants.len()
        invariant
            values.wf(),
            vals == values@,
            items == old(grants)@,
            ts == items.map_values(|g: PermissionGrant| grant_texts(g@)),
            grants@.len() == items.len(),
            0 <= i <= items.len(),
            first_error(ts.subrange(0, i as int).flatten(), vals) is None,
            forall|j: int| 0 <= j < i ==> (#[trigger] grants@[j])@ == sub_grant(items[j]@, vals),
            forall|j: int| i <= j < items.len() ==> #[trigger] grants@[j] == items[j],
        decreases items.len() - i,
    {
        proof {
            lemma_flat_step(ts, i as int, vals);
        }
        substitute_grant(&mut grants[i], values)?;
        i = i + 1;
    }
    assert(ts.subrange(0, items.len() as int) =~= ts);
    assert(grants@.map_values(|g: PermissionGrant| g@) =~= items.map_values(|g: PermissionGrant| sub_grant(g@, vals)));
    Ok(())
}

fn substitute_op(o: &mut AppOpGrant, values: &VariableMap) -> (r: Result<()>)
    requires
        values.wf(),
    ensures
        match first_error(op_texts(old(o)@), values@) {
            None => r is Ok && final(o)@ == sub_op(old(o)@, values@),
            Some(m) => err_of(r) == Some(ErrorView::Config(m)),
        },
{
    let ghost vals = values@;
    let ghost x = o@;
    proof {
        assert(op_texts(x) =~= seq![x.package] + (seq![x.operation] + seq![x.mode]));
        lemma_first_error_concat(seq![x.package], seq![x.operation] + seq![x.mode], vals);
        lemma_first_error_concat(seq![x.operation], seq![x.mode], vals);
        lemma_first_error_single(x.package, vals);
        lemma_first_error_single(x.operation, vals);
        lemma_first_error_single(x.mode, vals);
    }
    substitute_string(&mut o.package, values)?;
    substitute_string(&mut o.operation, values)?;
    substitute_string(&mut o.mode, values)?;
    Ok(())
}

fn substitute_ops(ops: &mut Vec<AppOpGrant>, values: &VariableMap) -> (r: Result<()>)
    requires
        values.wf(),
    ensures
        match first_error(old(ops)@.map_values(|o: AppOpGrant| op_texts(o@)).flatten(), values@) {
            None => r is Ok && final(ops)@.map_values(|o: AppOpGrant| o@) == old(ops)@.map_values(
                |o: AppOpGrant| sub_op(o@, values@),
            ),
            Some(m) => err_of(r) == Some(ErrorView::Config(m)),
        },
{
    let ghost vals = values@;
    let ghost items = ops@;
    let ghost ts = items.map_values(|o: AppOpGrant| op_texts(o@));
    let mut i: usize = 0;
    assert(ts.subrange(0, 0) =~= Seq::<Seq<Seq<char>>>::empty());
    while i < ops.len()
        invariant
            values.wf(),
            vals == values@,
            items == old(ops)@,
            ts == items.map_values(|o: AppOpGrant| op_texts(o@)),
            ops@.len() == items.len(),
            0 <= i <= items.len(),
            first_error(ts.subrange(0, i as int).flatten(), vals) is None,
            forall|j: int| 0 <= j < i ==> (#[trigger] ops@[j])@ == sub_op(items[j]@, vals),
            forall|j: int| i <= j < items.len() ==> #[trigger] ops@[j] == items[j],
        decreases items.len() - i,
    {
        proof {
            lemma_flat_step(ts, i as int, vals);
        }
        substitute_op(&mut ops[i], values)?;
        i = i + 1;
    }
    assert(ts.subrange(0, items.len() as int) =~= ts);
    assert(ops@.map_values(|o: AppOpGrant| o@) =~= items.map_values(|o: AppOpGrant| sub_op(o@, vals)));
    Ok(())
}


/// Substitutes the texts of an installation step.
pub fn substitute_install_step(step: &mut InstallStep, values: &VariableMap) -> (r: Result<()>)
    requires
        values.wf(),
    ensures
        match first_error(step_texts(old(step)@), values@) {
            None => r is Ok && final(step)@ == sub_step(old(step)@, values@),
            Some(m) => err_of(r) == Some(ErrorView::Config(m)),
        },
{
    let ghost vals = values@;
    match step {
        InstallStep::CreateDirectories { paths } => substitute_strings(paths, values),
        InstallStep::InstallApks { priority_order, exclude_patterns, .. } => {
            proof {
                lemma_first_error_concat(strs(priority_order@), strs(exclude_patterns@), vals);
            }
            substitute_strings(priority_order, values)?;
            substitute_strings(exclude_patterns, values)
        },
        InstallStep::PushFiles { files } => {
            let ghost o = files@;
            assert(o.map_values(|f: FilePush| f@).map_values(|f: FilePushView| file_texts(f)) =~= o.map_values(|f: FilePush| file_texts(f@)));
            let r = substitute_files(files, values);
            proof {
                if r is Ok {
                    assert(o.map_values(|f: FilePush| f@).map_values(|f: FilePushView| sub_file(f, vals)) =~= o.map_values(|f: FilePush| sub_file(f@, vals)));
                }
            }
            r
        },
        InstallStep::GrantPermissions { grants } => {
            let ghost o = grants@;
            assert(o.map_values(|g: PermissionGrant| g@).map_values(|g: PermissionGrantView| grant_texts(g)) =~= o.map_values(|g: PermissionGrant| grant_texts(g@)));
            let r = substitute_grants(grants, values);
            proof {
                if r is Ok {
                    assert(o.map_values(|g: PermissionGrant| g@).map_values(|g: PermissionGrantView| sub_grant(g, vals)) =~= o.map_values(|g: PermissionGrant| sub_grant(g@, vals)));
                }
            }
            r
        },
        InstallStep::SetAppOps { ops } => {
            let ghost o = ops@;
            assert(o.map_values(|x: AppOpGrant| x@).map_values(|x: AppOpGrantView| op_texts(x)) =~= o.map_values(|x: AppOpGrant| op_texts(x@)));
            let r = substitute_ops(ops, values);
            proof {
                if r is Ok {
                    assert(o.map_values(|x: AppOpGrant| x@).map_values(|x: AppOpGrantView| sub_op(x, vals)) =~= o.map_values(|x: AppOpGrant| sub_op(x@, vals)));
                }
            }
            r
        },
        InstallStep::RunCommand { command, .. } => {
            proof {
                lemma_first_error_single(command@, vals);
            }
            substitute_string(command, values)
        },
        InstallStep::SetLauncher { component } => {
            proof {
                lemma_first_error_single(component@, vals);
            }
            substitute_string(component, values)
        },
        InstallStep::CreateConfig { path, content, .. } => {
            proof {
                assert(seq![path@, content@] =~= seq![path@] + seq![content@]);
                lemma_first_error_concat(seq![path@], seq![content@], vals);
                lemma_first_error_single(path@, vals);
                lemma_first_error_single(content@, vals);
            }
            substitute_string(path, values)?;
            substitute_string(content, values)
        },
    }
}

/// Substitutes the texts of a cleanup step.
pub fn substitute_cleanup_step(step: &mut CleanupStep, values: &VariableMap) -> (r: Result<()>)
    requires
        values.wf(),
    ensures
        match first_error(cleanup_texts(old(step)@), values@) {
            None => r is Ok && final(step)@ == sub_cleanup(old(step)@, values@),
            Some(m) => err_of(r) == Some(ErrorView::Config(m)),
        },
{
    match step {
        CleanupStep::UninstallPackages { patterns } => substitute_strings(patterns, values),
        CleanupStep::RemoveDirectories { paths } => substitute_strings(paths, values),
        CleanupStep::RemoveDirectoriesIfEmpty { paths } => substitute_strings(paths, values),
        CleanupStep::RemoveFiles { paths } => substitute_strings(paths, values),
    }
}

fn substitute_install_steps(steps: &mut Vec<InstallStep>, values: &VariableMap) -> (r: Result<()>)
    requires
        values.wf(),
    ensures
        match first_error(old(steps)@.map_values(|s: InstallStep| step_texts(s@)).flatten(), values@) {
            None => r is Ok && final(steps)@.map_values(|s: InstallStep| s@) == old(steps)@.map_values(
                |s: InstallStep| sub_step(s@, values@),
            ),
            Some(m) => err_of(r) == Some(ErrorView::Config(m)),
        },
{
    let ghost vals = values@;
    let ghost items = steps@;
    let ghost ts = items.map_values(|s: InstallStep| step_texts(s@));
    let mut i: usize = 0;
    assert(ts.subrange(0, 0) =~= Seq::<Seq<Seq<char>>>::empty());
    while i < steps.len()
        invariant
            values.wf(),
            vals == values@,
            items == old(steps)@,
            ts == items.map_values(|s: InstallStep| step_texts(s@)),
            steps@.len() == items.len(),
            0 <= i <= items.len(),
            first_error(ts.subrange(0, i as int).flatten(), vals) is None,
            forall|j: int| 0 <= j < i ==> (#[trigger] steps@[j])@ == sub_step(items[j]@, vals),
            forall|j: int| i <= j < items.len() ==> #[trigger] steps@[j] == items[j],
        decreases items.len() - i,
    {
        proof {
            lemma_flat_step(ts, i as int, vals);
        }
        substitute_install_step(&mut steps[i], values)?;
        i = i + 1;
    }
    assert(ts.subrange(0, items.len() as int) =~= ts);
    assert(steps@.map_values(|s: InstallStep| s@) =~= items.map_values(|s: InstallStep| sub_step(s@, vals)));
    Ok(())
}

fn substitute_cleanup_steps(steps: &mut Vec<CleanupStep>, values: &VariableMap) -> (r: Result<()>)
    requires
        values.wf(),
    ensures
        match first_error(old(steps)@.map_values(|s: CleanupStep| cleanup_texts(s@)).flatten(), values@) {
            None => r is Ok && final(steps)@.map_values(|s: CleanupStep| s@) == old(steps)@.map_values(
                |s: CleanupStep| sub_cleanup(s@, values@),
            ),
            Some(m) => err_of(r) == Some(ErrorView::Config(m)),
        },
{
    let ghost vals = values@;
    let ghost items = steps@;
    let ghost ts = items.map_values(|s: CleanupStep| cleanup_texts(s@));
    let mut i: usize = 0;
    assert(ts.subrange(0, 0) =~= Seq::<Seq<Seq<char>>>::empty());
    while i < steps.len()
        invariant
            values.wf(),
            vals == values@,
            items == old(steps)@,
            ts == items.map_values(|s: CleanupStep| cleanup_texts(s@)),
            steps@.len() == items.len(),
            0 <= i <= items.len(),
            first_error(ts.subrange(0, i as int).flatten(), vals) is None,
            forall|j: int| 0 <= j < i ==> (#[trigger] steps@[j])@ == sub_cleanup(items[j]@, vals),
            forall|j: int| i <= j < items.len() ==> #[trigger] steps@[j] == items[j],
        decreases items.len() - i,
    {
        proof {
            lemma_flat_step(ts, i as int, vals);
        }
        substitute_cleanup_step(&mut steps[i], values)?;
        i = i + 1;
    }
    assert(ts.subrange(0, items.len() as int) =~= ts);
    assert(steps@.map_values(|s: CleanupStep| s@) =~= items.map_values(|s: CleanupStep| sub_cleanup(s@, vals)));
    Ok(())
}

/// Substitutes the texts of a repository's cleanup and installation steps.
pub fn substitute_repository(repo: &mut Repository, values: &VariableMap) -> (r: Result<()>)
    requires
        values.wf(),
    ensures
        match first_error(repo_texts(old(repo)@), values@) {
            None => r is Ok && final(repo)@ == sub_repo(old(repo)@, values@),
            Some(m) => err_of(r) == Some(ErrorView::Config(m)),
        },
{
    let ghost vals = values@;
    let ghost o = repo@;
    proof {
        assert(o.cleanup.map_values(|c: CleanupStepView| cleanup_texts(c)) =~= repo.cleanup@.map_values(|s: CleanupStep| cleanup_texts(s@)));
        assert(o.installation.map_values(|s: InstallStepView| step_texts(s)) =~= repo.installation@.map_values(|s: InstallStep| step_texts(s@)));
        lemma_first_error_concat(
            repo.cleanup@.map_values(|s: CleanupStep| cleanup_texts(s@)).flatten(),
            repo.installation@.map_values(|s: InstallStep| step_texts(s@)).flatten(),
            vals,
        );
    }
    substitute_cleanup_steps(&mut repo.cleanup, values)?;
    substitute_install_steps(&mut repo.installation, values)?;
    proof {
        assert(repo@.cleanup =~= o.cleanup.map_values(|c: CleanupStepView| sub_cleanup(c, vals)));
        assert(repo@.installation =~= o.installation.map_values(|s: InstallStepView| sub_step(s, vals)));
    }
    Ok(())
}


fn substitute_repositories(repos: &mut Vec<Repository>, values: &VariableMap) -> (r: Result<()>)
    requires
        values.wf(),
    ensures
        match first_error(old(repos)@.map_values(|x: Repository| repo_texts(x@)).flatten(), values@) {
            None => r is Ok && final(repos)@.map_values(|x: Repository| x@) == old(repos)@.map_values(
                |x: Repository| sub_repo(x@, values@),
            ),
            Some(m) => err_of(r) == Some(ErrorView::Config(m)),
        },
{
    let ghost vals = values@;
    let ghost items = repos@;
    let ghost ts = items.map_values(|x: Repository| repo_texts(x@));
    let mut i: usize = 0;
    assert(ts.subrange(0, 0) =~= Seq::<Seq<Seq<char>>>::empty());
    while i < repos.len()
        invariant
            values.wf(),
            vals == values@,
            items == old(repos)@,
            ts == items.map_values(|x: Repository| repo_texts(x@)),
            repos@.len() == items.len(),
            0 <= i <= items.len(),
            first_error(ts.subrange(0, i as int).flatten(), vals) is None,
            forall|j: int| 0 <= j < i ==> (#[trigger] repos@[j])@ == sub_repo(items[j]@, vals),
            forall|j: int| i <= j < items.len() ==> #[trigger] repos@[j] == items[j],
        decreases items.len() - i,
    {
        proof {
            lemma_flat_step(ts, i as int, vals);
        }
        substitute_repository(&mut repos[i], values)?;
        i = i + 1;
    }
    assert(ts.subrange(0, items.len() as int) =~= ts);
    assert(repos@.map_values(|x: Repository| x@) =~= items.map_values(|x: Repository| sub_repo(x@, vals)));
    Ok(())
}

impl InstallConfig {
    /// Replaces the placeholders of every text of the plan that substitution
    /// covers: its name, and the texts of the repositories' cleanup and
    /// installation steps and of the global steps. The first failure stops
    /// the rewrite and is returned.
    pub fn apply_variables(&mut self, values: &VariableMap) -> (r: Result<()>)
        requires
            values.wf(),
        ensures
            match first_error(config_texts(old(self)@), values@) {
                None => r is Ok && final(self)@ == sub_config(old(self)@, values@),
                Some(m) => err_of(r) == Some(ErrorView::Config(m)),
            },
    {
        let ghost vals = values@;
        let ghost o = self@;
        let ghost a = self.repositories@.map_values(|x: Repository| repo_texts(x@)).flatten();
        let ghost b = self.global_setup@.map_values(|s: InstallStep| step_texts(s@)).flatten();
        proof {
            assert(o.repositories.map_values(|x: RepositoryView| repo_texts(x)) =~= self.repositories@.map_values(|x: Repository| repo_texts(x@)));
            assert(o.global_setup.map_values(|s: InstallStepView| step_texts(s)) =~= self.global_setup@.map_values(|s: InstallStep| step_texts(s@)));
            assert(config_texts(o) =~= seq![o.name] + (a + b));
            lemma_first_error_concat(seq![o.name], a + b, vals);
            lemma_first_error_concat(a, b, vals);
            lemma_first_error_single(o.name, vals);
        }
        substitute_string(&mut self.name, values)?;
        substitute_repositories(&mut self.repositories, values)?;
        substitute_install_steps(&mut self.global_setup, values)?;
        proof {
            assert(self@.repositories =~= o.repositories.map_values(|x: RepositoryView| sub_repo(x, vals)));
            assert(self@.global_setup =~= o.global_setup.map_values(|s: InstallStepView| sub_step(s, vals)));
        }
        Ok(())
    }
}


// ----- texts without placeholders -----

/// None of the texts contains the opening `{{` of a placeholder.
pub open spec fn free_texts(ts: Seq<Seq<char>>) -> bool {
    forall|i: int| 0 <= i < ts.len() ==> !contains(#[trigger] ts[i], open_mark())
}

proof fn lemma_plain_text(s: Seq<char>, vals: Map<Seq<char>, Seq<char>>)
    requires
        !contains(s, open_mark()),
    ensures
        placeholders(s, vals) == Ok::<Seq<char>, Seq<char>>(s),
        sub_text(s, vals) == s,
{
    reveal(find);
    lemma_scan_plain(s, vals, Seq::empty(), Seq::empty());
    assert(Seq::<char>::empty() + s =~= s);
}

proof fn lemma_free_no_error(ts: Seq<Seq<char>>, vals: Map<Seq<char>, Seq<char>>)
    requires
        free_texts(ts),
    ensures
        first_error(ts, vals) is None,
    decreases ts.len(),
{
    if ts.len() > 0 {
        lemma_plain_text(ts[0], vals);
        assert forall|i: int| 0 <= i < ts.drop_first().len() implies !contains(#[trigger] ts.drop_first()[i], open_mark()) by {
            assert(ts.drop_first()[i] == ts[i + 1]);
        }
        lemma_free_no_error(ts.drop_first(), vals);
    }
}

proof fn lemma_free_concat(a: Seq<Seq<char>>, b: Seq<Seq<char>>)
    requires
        free_texts(a + b),
    ensures
        free_texts(a),
        free_texts(b),
{
    assert forall|i: int| 0 <= i < a.len() implies !contains(#[trigger] a[i], open_mark()) by {
        assert((a + b)[i] == a[i]);
    }
    assert forall|i: int| 0 <= i < b.len() implies !contains(#[trigger] b[i], open_mark()) by {
        assert((a + b)[a.len() + i] == b[i]);
    }
}

proof fn lemma_free_flatten(ts: Seq<Seq<Seq<char>>>)
    requires
        free_texts(ts.flatten()),
    ensures
        forall|i: int| 0 <= i < ts.len() ==> free_texts(#[trigger] ts[i]),
    decreases ts.len(),
{
    if ts.len() > 0 {
        lemma_free_concat(ts.first(), ts.drop_first().flatten());
        lemma_free_flatten(ts.drop_first());
        assert forall|i: int| 0 <= i < ts.len() implies free_texts(#[trigger] ts[i]) by {
            if i > 0 {
                assert(ts.drop_first()[i - 1] == ts[i]);
            }
        }
    }
}

proof fn lemma_free_texts_same(v: Seq<Seq<char>>, vals: Map<Seq<char>, Seq<char>>)
    requires
        free_texts(v),
    ensures
        sub_texts(v, vals) == v,
{
    assert forall|i: int| 0 <= i < v.len() implies #[trigger] sub_texts(v, vals)[i] == v[i] by {
        lemma_plain_text(v[i], vals);
    }
    assert(sub_texts(v, vals) =~= v);
}

proof fn lemma_free_single(x: Seq<char>, vals: Map<Seq<char>, Seq<char>>)
    requires
        free_texts(seq![x]),
    ensures
        sub_text(x, vals) == x,
{
    assert(seq![x][0] == x);
    lemma_plain_text(x, vals);
}

proof fn lemma_free_step_same(s: InstallStepView, vals: Map<Seq<char>, Seq<char>>)
    requires
        free_texts(step_texts(s)),
    ensures
        sub_step(s, vals) == s,
{
    match s {
        InstallStepView::CreateDirectories { paths } => {
            lemma_free_texts_same(paths, vals);
        },
        InstallStepView::InstallApks { priority_order, allow_failures, exclude_patterns } => {
            lemma_free_concat(priority_order, exclude_patterns);
            lemma_free_texts_same(priority_order, vals);
            lemma_free_texts_same(exclude_patterns, vals);
        },
        InstallStepView::PushFiles { files } => {
            let ts = files.map_values(|f: FilePushView| file_texts(f));
            lemma_free_flatten(ts);
            assert forall|i: int| 0 <= i < files.len() implies #[trigger] sub_file(files[i], vals) == files[i] by {
                let f = files[i];
                assert(ts[i] == file_texts(f));
                assert(file_texts(f) =~= seq![f.local] + (seq![f.remote] + opt_texts(f.chmod)));
                lemma_free_concat(seq![f.local], seq![f.remote] + opt_texts(f.chmod));
                lemma_free_concat(seq![f.remote], opt_texts(f.chmod));
                lemma_free_single(f.local, vals);
                lemma_free_single(f.remote, vals);
                if let Some(c) = f.chmod {
                    lemma_free_single(c, vals);
                }
            }
            assert(files.map_values(|f: FilePushView| sub_file(f, vals)) =~= files);
        },
        InstallStepView::GrantPermissions { grants } => {
            let ts = grants.map_values(|g: PermissionGrantView| grant_texts(g));
            lemma_free_flatten(ts);
            assert forall|i: int| 0 <= i < grants.len() implies #[trigger] sub_grant(grants[i], vals) == grants[i] by {
                let g = grants[i];
                assert(ts[i] == grant_texts(g));
                assert(grant_texts(g) =~= seq![g.package] + seq![g.permission]);
                lemma_free_concat(seq![g.package], seq![g.permission]);
                lemma_free_single(g.package, vals);
                lemma_free_single(g.permission, vals);
            }
            assert(grants.map_values(|g: PermissionGrantView| sub_grant(g, vals)) =~= grants);
        },
        InstallStepView::SetAppOps { ops } => {
            let ts = ops.map_values(|o: AppOpGrantView| op_texts(o));
            lemma_free_flatten(ts);
            assert forall|i: int| 0 <= i < ops.len() implies #[trigger] sub_op(ops[i], vals) == ops[i] by {
                let o = ops[i];
                assert(ts[i] == op_texts(o));
                assert(op_texts(o) =~= seq![o.package] + (seq![o.operation] + seq![o.mode]));
                lemma_free_concat(seq![o.package], seq![o.operation] + seq![o.mode]);
                lemma_free_concat(seq![o.operation], seq![o.mode]);
                lemma_free_single(o.package, vals);
                lemma_free_single(o.operation, vals);
                lemma_free_single(o.mode, vals);
            }
            assert(ops.map_values(|o: AppOpGrantView| sub_op(o, vals)) =~= ops);
        },
        InstallStepView::RunCommand { command, .. } => {
            lemma_free_single(command, vals);
        },
        InstallStepView::SetLauncher { component } => {
            lemma_free_single(component, vals);
        },
        InstallStepView::CreateConfig { path, content, .. } => {
            assert(seq![path, content] =~= seq![path] + seq![content]);
            lemma_free_concat(seq![path], seq![content]);
            lemma_free_single(path, vals);
            lemma_free_single(content, vals);
        },
    }
}

proof fn lemma_free_repo_same(r: RepositoryView, vals: Map<Seq<char>, Seq<char>>)
    requires
        free_texts(repo_texts(r)),
    ensures
        sub_repo(r, vals) == r,
{
    let cs = r.cleanup.map_values(|c: CleanupStepView| cleanup_texts(c));
    let ss = r.installation.map_values(|s: InstallStepView| step_texts(s));
    lemma_free_concat(cs.flatten(), ss.flatten());
    lemma_free_flatten(cs);
    lemma_free_flatten(ss);
    assert forall|i: int| 0 <= i < r.cleanup.len() implies #[trigger] sub_cleanup(r.cleanup[i], vals) == r.cleanup[i] by {
        assert(cs[i] == cleanup_texts(r.cleanup[i]));
        match r.cleanup[i] {
            CleanupStepView::UninstallPackages { patterns } => lemma_free_texts_same(patterns, vals),
            CleanupStepView::RemoveDirectories { paths } => lemma_free_texts_same(paths, vals),
            CleanupStepView::RemoveDirectoriesIfEmpty { paths } => lemma_free_texts_same(paths, vals),
            CleanupStepView::RemoveFiles { paths } => lemma_free_texts_same(paths, vals),
        }
    }
    assert forall|i: int| 0 <= i < r.installation.len() implies #[trigger] sub_step(r.installation[i], vals) == r.installation[i] by {
        assert(ss[i] == step_texts(r.installation[i]));
        lemma_free_step_same(r.installation[i], vals);
    }
    assert(r.cleanup.map_values(|c: CleanupStepView| sub_cleanup(c, vals)) =~= r.cleanup);
    assert(r.installation.map_values(|s: InstallStepView| sub_step(s, vals)) =~= r.installation);
}

/// Substitution leaves a plan unchanged, and succeeds, when none of the
/// texts it rewrites contains `{{`, whatever the variable values (the empty
/// map among them).
pub proof fn law_substitution_without_placeholders(c: InstallConfigView, vals: Map<Seq<char>, Seq<char>>)
    requires
        free_texts(config_texts(c)),
    ensures
        first_error(config_texts(c), vals) is None,
        sub_config(c, vals) == c,
{
    lemma_free_no_error(config_texts(c), vals);
    let rs = c.repositories.map_values(|r: RepositoryView| repo_texts(r));
    let gs = c.global_setup.map_values(|s: InstallStepView| step_texts(s));
    assert(config_texts(c) =~= seq![c.name] + (rs.flatten() + gs.flatten()));
    lemma_free_concat(seq![c.name], rs.flatten() + gs.flatten());
    lemma_free_concat(rs.flatten(), gs.flatten());
    lemma_free_single(c.name, vals);
    lemma_free_flatten(rs);
    lemma_free_flatten(gs);
    assert forall|i: int| 0 <= i < c.repositories.len() implies #[trigger] sub_repo(c.repositories[i], vals) == c.repositories[i] by {
        assert(rs[i] == repo_texts(c.repositories[i]));
        lemma_free_repo_same(c.repositories[i], vals);
    }
    assert forall|i: int| 0 <= i < c.global_setup.len() implies #[trigger] sub_step(c.global_setup[i], vals) == c.global_setup[i] by {
        assert(gs[i] == step_texts(c.global_setup[i]));
        lemma_free_step_same(c.global_setup[i], vals);
    }
    assert(c.repositories.map_values(|r: RepositoryView| sub_repo(r, vals)) =~= c.repositories);
    assert(c.global_setup.map_values(|s: InstallStepView| sub_step(s, vals)) =~= c.global_setup);
}

} // verus!
