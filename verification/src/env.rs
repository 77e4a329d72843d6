//! The launch-time environment: sanitizing the host environment, contributing a layer's
//! implicit path entries, and applying the file-based modifications of a layer env
//! directory, per the Cloud Native Buildpacks specification.
use crate::text::{
    chars_of, extend_chars, join, join_chars, split, split_chars, str_eq, string_of, to_string,
    views,
};
use crate::launch::plain_path;
use vstd::prelude::*;

verus! {

/// The pairs of a list of string pairs, viewed as character sequences.
pub open spec fn pair_views(s: Seq<(String, String)>) -> Seq<(Seq<char>, Seq<char>)> {
    s.map_values(|p: (String, String)| (p.0@, p.1@))
}

/// The map that a list of (name, value) pairs builds when inserted in order: a later pair
/// for a name replaces an earlier one.
pub open spec fn map_of(s: Seq<(Seq<char>, Seq<char>)>) -> Map<Seq<char>, Seq<char>>
    decreases s.len(),
{
    if s.len() == 0 {
        Map::empty()
    } else {
        map_of(s.drop_last()).insert(s.last().0, s.last().1)
    }
}

proof fn lemma_map_of_absent(s: Seq<(Seq<char>, Seq<char>)>, k: Seq<char>)
    requires
        forall|j: int| 0 <= j < s.len() ==> (#[trigger] s[j]).0 != k,
    ensures
        !map_of(s).contains_key(k),
    decreases s.len(),
{
    if s.len() > 0 {
        lemma_map_of_absent(s.drop_last(), k);
    }
}

proof fn lemma_map_of_last(s: Seq<(Seq<char>, Seq<char>)>, k: Seq<char>, i: int)
    requires
        0 <= i < s.len(),
        s[i].0 == k,
        forall|j: int| i < j < s.len() ==> (#[trigger] s[j]).0 != k,
    ensures
        map_of(s).contains_key(k),
        map_of(s)[k] == s[i].1,
    decreases s.len(),
{
    if i < s.len() - 1 {
        lemma_map_of_last(s.drop_last(), k, i);
    }
}

proof fn lemma_map_of_update_last(s: Seq<(Seq<char>, Seq<char>)>, k: Seq<char>, v: Seq<char>, i: int)
    requires
        0 <= i < s.len(),
        s[i].0 == k,
        forall|j: int| i < j < s.len() ==> (#[trigger] s[j]).0 != k,
    ensures
        map_of(s.update(i, (k, v))) == map_of(s).insert(k, v),
    decreases s.len(),
{
    let t = s.update(i, (k, v));
    if i == s.len() - 1 {
        assert(t.drop_last() =~= s.drop_last());
        assert(map_of(t) =~= map_of(s).insert(k, v));
    } else {
        lemma_map_of_update_last(s.drop_last(), k, v, i);
        assert(t.drop_last() =~= s.drop_last().update(i, (k, v)));
        assert(map_of(t) =~= map_of(s).insert(k, v));
    }
}

/// The environment of the launched process: a list of (name, value) pairs read as a map
/// (see [`map_of`]).
pub struct LaunchEnv {
    vars: Vec<(String, String)>,
}

impl View for LaunchEnv {
    type V = Map<Seq<char>, Seq<char>>;

    closed spec fn view(&self) -> Map<Seq<char>, Seq<char>> {
        map_of(pair_views(self.vars@))
    }
}

/// Entries of `s` whose name is `k`, from index `from` on.
spec fn no_key_after(s: Seq<(Seq<char>, Seq<char>)>, k: Seq<char>, from: int) -> bool {
    forall|j: int| from <= j < s.len() ==> (#[trigger] s[j]).0 != k
}

impl LaunchEnv {
    /// An empty environment.
    pub fn empty() -> (r: LaunchEnv)
        ensures
            r@ == Map::<Seq<char>, Seq<char>>::empty(),
    {
        let r = LaunchEnv { vars: Vec::new() };
        assert(pair_views(r.vars@).len() == 0);
        r
    }

    /// The index of the last pair named `key`.
    fn position(&self, key: &str) -> (r: Option<usize>)
        ensures
            match r {
                Some(i) => i < self.vars@.len() && pair_views(self.vars@)[i as int].0 == key@
                    && no_key_after(pair_views(self.vars@), key@, i + 1),
                None => no_key_after(pair_views(self.vars@), key@, 0),
            },
    {
        let ghost pv = pair_views(self.vars@);
        let mut i: usize = self.vars.len();
        while i > 0
            invariant
                i <= self.vars@.len(),
                pv == pair_views(self.vars@),
                no_key_after(pv, key@, i as int),
            decreases i,
        {
            assert(pv[i - 1] == (self.vars@[i - 1].0@, self.vars@[i - 1].1@));
            if str_eq(self.vars[i - 1].0.as_str(), key) {
                return Some(i - 1);
            }
            i = i - 1;
        }
        None
    }

    /// The value of `key`, if it is set.
    pub fn get(&self, key: &str) -> (r: Option<String>)
        ensures
            match r {
                Some(v) => self@.contains_key(key@) && self@[key@] == v@,
                None => !self@.contains_key(key@),
            },
    {
        match self.position(key) {
            Some(i) => {
                proof {
                    lemma_map_of_last(pair_views(self.vars@), key@, i as int);
                }
                Some(self.vars[i].1.clone())
            },
            None => {
                proof {
                    lemma_map_of_absent(pair_views(self.vars@), key@);
                }
                None
            },
        }
    }

    /// Sets `key` to `value`.
    pub fn set(&mut self, key: &str, value: &str)
        ensures
            final(self)@ == old(self)@.insert(key@, value@),
    {
        let ghost pv = pair_views(self.vars@);
        match self.position(key) {
            Some(i) => {
                self.vars.set(i, (to_string(key), to_string(value)));
                proof {
                    lemma_map_of_update_last(pv, key@, value@, i as int);
                    assert(pair_views(self.vars@) =~= pv.update(i as int, (key@, value@)));
                }
            },
            None => {
                self.vars.push((to_string(key), to_string(value)));
                assert(pair_views(self.vars@).drop_last() =~= pv);
            },
        }
    }

    /// The (name, value) pairs of the environment; inserted in order into a map, they
    /// give this environment.
    pub fn pairs(&self) -> (r: Vec<(String, String)>)
        ensures
            map_of(pair_views(r@)) == self@,
    {
        let mut r: Vec<(String, String)> = Vec::new();
        let mut i: usize = 0;
        while i < self.vars.len()
            invariant
                i <= self.vars@.len(),
                pair_views(r@) == pair_views(self.vars@.take(i as int)),
            decreases self.vars@.len() - i,
        {
            let a = self.vars[i].0.clone();
            let b = self.vars[i].1.clone();
            let ghost before = pair_views(r@);
            r.push((a, b));
            assert(pair_views(r@) =~= before.push((self.vars@[i as int].0@, self.vars@[i as int].1@)));
            assert(pair_views(r@) =~= pair_views(self.vars@.take(i + 1)));
            i = i + 1;
        }
        assert(self.vars@.take(self.vars@.len() as int) =~= self.vars@);
        r
    }
}


/// Names of the launcher's own variables, which never reach the launched process.
pub open spec fn is_launcher_variable(name: Seq<char>) -> bool {
    ||| name == "CNB_LAYERS_DIR"@
    ||| name == "CNB_APP_DIR"@
    ||| name == "CNB_PROCESS_TYPE"@
    ||| name == "CNB_PLATFORM_API"@
    ||| name == "CNB_DEPRECATION_MODE"@
}

fn launcher_variable(name: &str) -> (r: bool)
    ensures
        r == is_launcher_variable(name@),
{
    str_eq(name, "CNB_LAYERS_DIR") || str_eq(name, "CNB_APP_DIR") || str_eq(name, "CNB_PROCESS_TYPE")
        || str_eq(name, "CNB_PLATFORM_API") || str_eq(name, "CNB_DEPRECATION_MODE")
}

/// The pairs of `s` whose name is not a launcher variable, in order.
pub open spec fn without_launcher_variables(s: Seq<(Seq<char>, Seq<char>)>) -> Seq<(Seq<char>, Seq<char>)>
    decreases s.len(),
{
    if s.len() == 0 {
        s
    } else {
        let r = without_launcher_variables(s.drop_last());
        if is_launcher_variable(s.last().0) {
            r
        } else {
            r.push(s.last())
        }
    }
}

/// The result of comparing two paths with `Path::eq` on the target platform.
pub uninterp spec fn path_equal(a: Seq<char>, b: Seq<char>) -> bool;

/// Whether a path begins at the root (with `/`).
pub open spec fn has_root(p: Seq<char>) -> bool {
    p.len() > 0 && p[0] == '/'
}

/// Whether a path begins with the current directory (`.` followed by `/` or the end).
pub open spec fn has_cur_dir(p: Seq<char>) -> bool {
    split(p, '/')[0] == "."@
}

/// The components of a `/`-separated path other than the root and a leading `.`: its
/// pieces without the empty ones (repeated or trailing separators) and without `.`.
pub open spec fn normal_parts(p: Seq<char>) -> Seq<Seq<char>> {
    split(p, '/').filter(|x: Seq<char>| x.len() > 0 && x != "."@)
}

/// Whether two `/`-separated paths have the same components, as `Path::components`
/// documents them: the root, a leading `.`, then the pieces between separators, where
/// repeated and trailing separators and other `.` pieces are dropped.
pub open spec fn same_components(a: Seq<char>, b: Seq<char>) -> bool {
    &&& has_root(a) == has_root(b)
    &&& has_cur_dir(a) == has_cur_dir(b)
    &&& normal_parts(a) == normal_parts(b)
}

/// Whether two paths are equal as `Path::eq` finds them: by their components where both
/// are [`plain_path`]s, and as the target platform decides otherwise.
pub open spec fn paths_equal(a: Seq<char>, b: Seq<char>) -> bool {
    if plain_path(a) && plain_path(b) {
        same_components(a, b)
    } else {
        path_equal(a, b)
    }
}

/// Calls `==` on `Path::new(a)` and `Path::new(b)`, std's comparison of paths component by
/// component. Claimed of it: the result is `path_equal` of the two texts, so it depends on
/// them alone; and for two [`plain_path`]s, whose components every platform reads alike,
/// it is whether they have the same components as `Path::components` documents them.
#[verifier::external_body]
fn same_path(a: &str, b: &str) -> (r: bool)
    ensures
        r == path_equal(a@, b@),
        plain_path(a@) && plain_path(b@) ==> r == same_components(a@, b@),
{
    std::path::Path::new(a) == std::path::Path::new(b)
}

/// Whether `p` equals (as a path) one of `excluded`.
pub open spec fn is_excluded_path(p: Seq<char>, excluded: Seq<Seq<char>>) -> bool {
    exists|j: int| 0 <= j < excluded.len() && paths_equal(p, #[trigger] excluded[j])
}

/// The entries of a search path that are not excluded, in order.
pub open spec fn kept_entries(parts: Seq<Seq<char>>, excluded: Seq<Seq<char>>) -> Seq<Seq<char>>
    decreases parts.len(),
{
    if parts.len() == 0 {
        parts
    } else {
        let r = kept_entries(parts.drop_last(), excluded);
        if is_excluded_path(parts.last(), excluded) {
            r
        } else {
            r.push(parts.last())
        }
    }
}

/// A `:`-separated search path without its excluded entries.
pub open spec fn cleaned_search_path(v: Seq<char>, excluded: Seq<Seq<char>>) -> Seq<char> {
    join(kept_entries(split(v, ':'), excluded), ":"@)
}

/// The launch environment built from a host environment: the launcher's own variables
/// dropped, and the excluded directories removed from `PATH`.
pub open spec fn sanitized(host: Seq<(Seq<char>, Seq<char>)>, excluded: Seq<Seq<char>>) -> Map<Seq<char>, Seq<char>> {
    let m = map_of(without_launcher_variables(host));
    if m.contains_key("PATH"@) {
        m.insert("PATH"@, cleaned_search_path(m["PATH"@], excluded))
    } else {
        m
    }
}

fn excluded_path(p: &str, excluded: &[String]) -> (r: bool)
    ensures
        r == is_excluded_path(p@, crate::text::string_views(excluded@)),
{
    let ghost ev = crate::text::string_views(excluded@);
    let mut j: usize = 0;
    while j < excluded.len()
        invariant
            j <= excluded@.len(),
            ev == crate::text::string_views(excluded@),
            forall|k: int| 0 <= k < j ==> !paths_equal(p@, #[trigger] ev[k]),
        decreases excluded@.len() - j,
    {
        assert(ev[j as int] == excluded@[j as int]@);
        if same_path(p, excluded[j].as_str()) {
            return true;
        }
        j = j + 1;
    }
    false
}

/// Removes the excluded directories from a `:`-separated search path.
pub fn clean_search_path(v: &str, excluded: &[String]) -> (r: String)
    ensures
        r@ == cleaned_search_path(v@, crate::text::string_views(excluded@)),
{
    let ghost ev = crate::text::string_views(excluded@);
    let chars = chars_of(v);
    let parts = split_chars(&chars, ':');
    let ghost pv = views(parts@);
    let mut kept: Vec<Vec<char>> = Vec::new();
    let mut i: usize = 0;
    assert(pv.take(0) =~= Seq::<Seq<char>>::empty());
    while i < parts.len()
        invariant
            i <= parts@.len(),
            pv == views(parts@),
            ev == crate::text::string_views(excluded@),
            views(kept@) == kept_entries(pv.take(i as int), ev),
        decreases parts@.len() - i,
    {
        let part = string_of(parts[i].as_slice());
        assert(pv.take(i + 1).drop_last() =~= pv.take(i as int));
        assert(pv.take(i + 1).last() == parts@[i as int]@);
        if !excluded_path(part.as_str(), excluded) {
            let ghost before = views(kept@);
            kept.push(slice_all(&parts[i]));
            assert(views(kept@) =~= before.push(parts@[i as int]@));
        }
        i = i + 1;
    }
    assert(pv.take(parts@.len() as int) =~= pv);
    let sep = chars_of(":");
    let joined = join_chars(&kept, &sep);
    string_of(&joined)
}

fn slice_all(v: &Vec<char>) -> (r: Vec<char>)
    ensures
        r@ == v@,
{
    let r = crate::text::slice_chars(v, 0, v.len());
    assert(v@.subrange(0, v@.len() as int) =~= v@);
    r
}

/// A layer directory prepended to a search-path variable: `dir:old` where the variable is
/// set, `dir` where it is not.
pub open spec fn with_prepended_dir(m: Map<Seq<char>, Seq<char>>, var: Seq<char>, dir: Option<Seq<char>>) -> Map<Seq<char>, Seq<char>> {
    match dir {
        None => m,
        Some(d) => if m.contains_key(var) {
            m.insert(var, d + seq![':'] + m[var])
        } else {
            m.insert(var, d)
        },
    }
}

/// The variables after each of `dirs` is prepended to `var` in turn.
pub open spec fn prepend_each(m: Map<Seq<char>, Seq<char>>, var: Seq<char>, dirs: Seq<Seq<char>>) -> Map<Seq<char>, Seq<char>>
    decreases dirs.len(),
{
    if dirs.len() == 0 {
        m
    } else {
        with_prepended_dir(prepend_each(m, var, dirs.drop_last()), var, Some(dirs.last()))
    }
}

impl LaunchEnv {
    /// Builds the launch environment from a host environment (pairs in order, a later one
    /// for a name replacing an earlier one): drops the launcher's own variables and
    /// removes the `excluded_paths` from `PATH`.
    pub fn from_host(host: &[(String, String)], excluded_paths: &[String]) -> (r: LaunchEnv)
        ensures
            r@ == sanitized(pair_views(host@), crate::text::string_views(excluded_paths@)),
    {
        let mut env = LaunchEnv::empty();
        let ghost hv = pair_views(host@);
        let mut i: usize = 0;
        assert(hv.take(0) =~= Seq::<(Seq<char>, Seq<char>)>::empty());
        while i < host.len()
            invariant
                i <= host@.len(),
                hv == pair_views(host@),
                env@ == map_of(without_launcher_variables(hv.take(i as int))),
            decreases host@.len() - i,
        {
            assert(hv.take(i + 1).drop_last() =~= hv.take(i as int));
            assert(hv.take(i + 1).last() == (host@[i as int].0@, host@[i as int].1@));
            let ghost w = without_launcher_variables(hv.take(i as int));
            if !launcher_variable(host[i].0.as_str()) {
                env.set(host[i].0.as_str(), host[i].1.as_str());
                assert(without_launcher_variables(hv.take(i + 1)) == w.push(hv[i as int]));
                assert(w.push(hv[i as int]).drop_last() =~= w);
            } else {
                assert(without_launcher_variables(hv.take(i + 1)) == w);
            }
            i = i + 1;
        }
        assert(hv.take(host@.len() as int) =~= hv);
        match env.get("PATH") {
            Some(path) => {
                let cleaned = clean_search_path(path.as_str(), excluded_paths);
                env.set("PATH", cleaned.as_str());
            },
            None => {},
        }
        env
    }

    /// Prepends a layer's `bin` directory to `PATH` and its `lib` directory to
    /// `LD_LIBRARY_PATH`, for those of the two that exist (`None` otherwise).
    pub fn add_implicit_layer_dir_paths(&mut self, bin_dir: Option<&str>, lib_dir: Option<&str>)
        requires
            bin_dir matches Some(d) ==> !d@.contains(':'),
            lib_dir matches Some(d) ==> !d@.contains(':'),
        ensures
            final(self)@ == with_prepended_dir(
                with_prepended_dir(
                    old(self)@,
                    "PATH"@,
                    match bin_dir {
                        Some(d) => Some(d@),
                        None => None,
                    },
                ),
                "LD_LIBRARY_PATH"@,
                match lib_dir {
                    Some(d) => Some(d@),
                    None => None,
                },
            ),
    {
        if let Some(d) = bin_dir {
            self.prepend_dir("PATH", d);
        }
        if let Some(d) = lib_dir {
            self.prepend_dir("LD_LIBRARY_PATH", d);
        }
    }

    fn prepend_dir(&mut self, var: &str, dir: &str)
        ensures
            final(self)@ == with_prepended_dir(old(self)@, var@, Some(dir@)),
    {
        match self.get(var) {
            Some(old_value) => {
                let mut v = chars_of(dir);
                v.push(':');
                let o = chars_of(old_value.as_str());
                extend_chars(&mut v, &o);
                let joined = string_of(&v);
                assert(joined@ =~= dir@ + seq![':'] + old_value@);
                self.set(var, joined.as_str());
            },
            None => {
                self.set(var, dir);
            },
        }
    }
}


/// Strict lexicographic order of names by code point (the byte order of their UTF-8
/// encodings, which is how file names sort).
pub open spec fn name_less(a: Seq<char>, b: Seq<char>) -> bool
    decreases a.len(),
{
    if a.len() == 0 {
        b.len() > 0
    } else if b.len() == 0 {
        false
    } else if a[0] != b[0] {
        a[0] < b[0]
    } else {
        name_less(a.drop_first(), b.drop_first())
    }
}

fn less_name(a: &str, b: &str) -> (r: bool)
    ensures
        r == name_less(a@, b@),
{
    let x = chars_of(a);
    let y = chars_of(b);
    let mut k: usize = 0;
    assert(x@.skip(0) =~= x@);
    assert(y@.skip(0) =~= y@);
    while k < x.len() && k < y.len() && x[k] == y[k]
        invariant
            k <= x@.len(),
            k <= y@.len(),
            name_less(x@, y@) == name_less(x@.skip(k as int), y@.skip(k as int)),
        decreases x@.len() - k,
    {
        assert(x@.skip(k as int).drop_first() =~= x@.skip(k + 1));
        assert(y@.skip(k as int).drop_first() =~= y@.skip(k + 1));
        k = k + 1;
    }
    if k == x.len() {
        k < y.len()
    } else if k == y.len() {
        false
    } else {
        assert(x@.skip(k as int)[0] == x@[k as int]);
        assert(y@.skip(k as int)[0] == y@[k as int]);
        x[k] < y[k]
    }
}

/// `x` placed into `t` before the first entry whose name follows its own (so after the
/// entries with an equal name).
pub open spec fn insert_by_name(t: Seq<(Seq<char>, Seq<char>)>, x: (Seq<char>, Seq<char>)) -> Seq<(Seq<char>, Seq<char>)>
    decreases t.len(),
{
    if t.len() == 0 {
        seq![x]
    } else if name_less(x.0, t[0].0) {
        seq![x] + t
    } else {
        seq![t[0]] + insert_by_name(t.drop_first(), x)
    }
}

/// The entries sorted by name, stably (insertion sort).
pub open spec fn sorted_by_name(s: Seq<(Seq<char>, Seq<char>)>) -> Seq<(Seq<char>, Seq<char>)>
    decreases s.len(),
{
    if s.len() == 0 {
        s
    } else {
        insert_by_name(sorted_by_name(s.drop_last()), s.last())
    }
}

proof fn lemma_insert_by_name_at(t: Seq<(Seq<char>, Seq<char>)>, x: (Seq<char>, Seq<char>), j: int)
    requires
        0 <= j <= t.len(),
        forall|i: int| 0 <= i < j ==> !name_less(x.0, (#[trigger] t[i]).0),
        j < t.len() ==> name_less(x.0, t[j].0),
    ensures
        insert_by_name(t, x) == t.insert(j, x),
    decreases t.len(),
{
    if t.len() == 0 {
        assert(t.insert(j, x) =~= seq![x]);
    } else if j == 0 {
        assert(t.insert(0, x) =~= seq![x] + t);
    } else {
        assert(!name_less(x.0, t[0].0));
        lemma_insert_by_name_at(t.drop_first(), x, j - 1);
        assert(seq![t[0]] + t.drop_first().insert(j - 1, x) =~= t.insert(j, x));
    }
}

/// Sorts (name, contents) pairs by name, stably.
pub fn sort_by_name(entries: &[(String, String)]) -> (r: Vec<(String, String)>)
    ensures
        pair_views(r@) == sorted_by_name(pair_views(entries@)),
{
    let ghost ev = pair_views(entries@);
    let mut r: Vec<(String, String)> = Vec::new();
    let mut i: usize = 0;
    assert(ev.take(0) =~= Seq::<(Seq<char>, Seq<char>)>::empty());
    while i < entries.len()
        invariant
            i <= entries@.len(),
            ev == pair_views(entries@),
            pair_views(r@) == sorted_by_name(ev.take(i as int)),
        decreases entries@.len() - i,
    {
        let ghost t = pair_views(r@);
        let ghost x = ev[i as int];
        assert(x == (entries@[i as int].0@, entries@[i as int].1@));
        let mut j: usize = 0;
        while j < r.len() && !less_name(entries[i].0.as_str(), r[j].0.as_str())
            invariant
                j <= r@.len(),
                i < entries@.len(),
                t == pair_views(r@),
                x == (entries@[i as int].0@, entries@[i as int].1@),
                forall|k: int| 0 <= k < j ==> !name_less(x.0, (#[trigger] t[k]).0),
            decreases r@.len() - j,
        {
            assert(t[j as int] == (r@[j as int].0@, r@[j as int].1@));
            j = j + 1;
        }
        if j < r.len() {
            assert(t[j as int] == (r@[j as int].0@, r@[j as int].1@));
        }
        proof {
            lemma_insert_by_name_at(t, x, j as int);
            assert(ev.take(i + 1).drop_last() =~= ev.take(i as int));
        }
        let item = (entries[i].0.clone(), entries[i].1.clone());
        r.insert(j, item);
        assert(pair_views(r@) =~= t.insert(j as int, x));
        i = i + 1;
    }
    assert(ev.take(entries@.len() as int) =~= ev);
    r
}

/// Names sorted by [`name_less`], stably.
pub open spec fn sorted_names(names: Seq<Seq<char>>) -> Seq<Seq<char>> {
    sorted_by_name(names.map_values(|n: Seq<char>| (n, Seq::<char>::empty()))).map_values(
        |p: (Seq<char>, Seq<char>)| p.0,
    )
}

/// Sorts directory entry names (the order in which the launcher visits layers and files).
pub fn sort_names(names: &[String]) -> (r: Vec<String>)
    ensures
        crate::text::string_views(r@) == sorted_names(crate::text::string_views(names@)),
{
    let mut pairs: Vec<(String, String)> = Vec::new();
    let mut i: usize = 0;
    while i < names.len()
        invariant
            i <= names@.len(),
            pair_views(pairs@) == crate::text::string_views(names@.take(i as int)).map_values(
                |n: Seq<char>| (n, Seq::<char>::empty()),
            ),
        decreases names@.len() - i,
    {
        let ghost before = pair_views(pairs@);
        let e = String::new();
        pairs.push((names[i].clone(), e));
        assert(pair_views(pairs@) =~= before.push((names@[i as int]@, Seq::<char>::empty())));
        assert(crate::text::string_views(names@.take(i + 1)) =~= crate::text::string_views(names@.take(i as int)).push(names@[i as int]@));
        assert(crate::text::string_views(names@.take(i + 1)).map_values(
            |n: Seq<char>| (n, Seq::<char>::empty()),
        ) =~= crate::text::string_views(names@.take(i as int)).map_values(
            |n: Seq<char>| (n, Seq::<char>::empty()),
        ).push((names@[i as int]@, Seq::<char>::empty())));
        i = i + 1;
    }
    assert(names@.take(names@.len() as int) =~= names@);
    let sorted = sort_by_name(pairs.as_slice());
    let mut r: Vec<String> = Vec::new();
    let mut k: usize = 0;
    while k < sorted.len()
        invariant
            k <= sorted@.len(),
            crate::text::string_views(r@) == pair_views(sorted@.take(k as int)).map_values(
                |p: (Seq<char>, Seq<char>)| p.0,
            ),
        decreases sorted@.len() - k,
    {
        let ghost before = crate::text::string_views(r@);
        r.push(sorted[k].0.clone());
        assert(crate::text::string_views(r@) =~= before.push(sorted@[k as int].0@));
        assert(pair_views(sorted@.take(k + 1)) =~= pair_views(sorted@.take(k as int)).push((sorted@[k as int].0@, sorted@[k as int].1@)));
        assert(pair_views(sorted@.take(k + 1)).map_values(
            |p: (Seq<char>, Seq<char>)| p.0,
        ) =~= pair_views(sorted@.take(k as int)).map_values(
            |p: (Seq<char>, Seq<char>)| p.0,
        ).push(sorted@[k as int].0@));
        k = k + 1;
    }
    assert(sorted@.take(sorted@.len() as int) =~= sorted@);
    r
}

/// The variable a file of an env directory modifies: its name up to the first `.`.
pub open spec fn file_variable(name: Seq<char>) -> Seq<char> {
    split(name, '.')[0]
}

/// The suffix of a file of an env directory: what follows the first `.`, if any.
pub open spec fn file_suffix(name: Seq<char>) -> Option<Seq<char>> {
    if split(name, '.').len() > 1 {
        Some(name.skip(file_variable(name).len() + 1int))
    } else {
        None
    }
}

/// The index of the first entry with the given name.
pub open spec fn find_named(entries: Seq<(Seq<char>, Seq<char>)>, name: Seq<char>) -> Option<int>
    decreases entries.len(),
{
    if entries.len() == 0 {
        None
    } else if entries[0].0 == name {
        Some(0)
    } else {
        match find_named(entries.drop_first(), name) {
            Some(k) => Some(k + 1),
            None => None,
        }
    }
}

/// The delimiter of a variable: the contents of its `.delim` file, or nothing.
pub open spec fn delimiter_of(entries: Seq<(Seq<char>, Seq<char>)>, var: Seq<char>) -> Seq<char> {
    match find_named(entries, var + ".delim"@) {
        Some(i) => entries[i].1,
        None => Seq::<char>::empty(),
    }
}

/// The effect of one file of an env directory (`entries` being all of its files):
/// no suffix or `.override` sets the variable; `.default` sets it only where it is unset;
/// `.append` and `.prepend` add the contents after or before the current value, with the
/// variable's delimiter between them, and where the variable is unset or empty they set
/// it; `.delim` and any other suffix change nothing.
pub open spec fn apply_env_file(
    m: Map<Seq<char>, Seq<char>>,
    name: Seq<char>,
    contents: Seq<char>,
    entries: Seq<(Seq<char>, Seq<char>)>,
) -> Map<Seq<char>, Seq<char>> {
    let var = file_variable(name);
    match file_suffix(name) {
        None => m.insert(var, contents),
        Some(sfx) => if sfx == "override"@ {
            m.insert(var, contents)
        } else if sfx == "default"@ {
            if m.contains_key(var) {
                m
            } else {
                m.insert(var, contents)
            }
        } else if sfx == "append"@ || sfx == "prepend"@ {
            let existing = if m.contains_key(var) {
                m[var]
            } else {
                Seq::<char>::empty()
            };
            let d = delimiter_of(entries, var);
            m.insert(
                var,
                if existing.len() == 0 {
                    contents
                } else if sfx == "append"@ {
                    existing + d + contents
                } else {
                    contents + d + existing
                },
            )
        } else {
            m
        },
    }
}

/// The effect of the files `files`, in order.
pub open spec fn apply_env_files(
    m: Map<Seq<char>, Seq<char>>,
    files: Seq<(Seq<char>, Seq<char>)>,
    entries: Seq<(Seq<char>, Seq<char>)>,
) -> Map<Seq<char>, Seq<char>>
    decreases files.len(),
{
    if files.len() == 0 {
        m
    } else {
        apply_env_file(
            apply_env_files(m, files.drop_last(), entries),
            files.last().0,
            files.last().1,
            entries,
        )
    }
}

proof fn lemma_find_named_skip(entries: Seq<(Seq<char>, Seq<char>)>, name: Seq<char>, i: int)
    requires
        0 <= i <= entries.len(),
        forall|j: int| 0 <= j < i ==> (#[trigger] entries[j]).0 != name,
    ensures
        find_named(entries, name) == (match find_named(entries.skip(i), name) {
            Some(k) => Some(k + i),
            None => None::<int>,
        }),
    decreases i,
{
    if i == 0 {
        assert(entries.skip(0) =~= entries);
        match find_named(entries, name) {
            Some(k) => {},
            None => {},
        }
    } else {
        lemma_find_named_skip(entries.drop_first(), name, i - 1);
        assert(entries.drop_first().skip(i - 1) =~= entries.skip(i));
    }
}

fn delimiter(entries: &[(String, String)], var: &str) -> (r: String)
    ensures
        r@ == delimiter_of(pair_views(entries@), var@),
{
    let ghost ev = pair_views(entries@);
    let mut name = chars_of(var);
    let suffix = chars_of(".delim");
    extend_chars(&mut name, &suffix);
    let name = string_of(&name);
    let mut i: usize = 0;
    while i < entries.len()
        invariant
            i <= entries@.len(),
            ev == pair_views(entries@),
            name@ == var@ + ".delim"@,
            forall|j: int| 0 <= j < i ==> (#[trigger] ev[j]).0 != name@,
        decreases entries@.len() - i,
    {
        assert(ev[i as int] == (entries@[i as int].0@, entries@[i as int].1@));
        if str_eq(entries[i].0.as_str(), name.as_str()) {
            proof {
                lemma_find_named_skip(ev, name@, i as int);
                assert(ev.skip(i as int)[0] == ev[i as int]);
            }
            return entries[i].1.clone();
        }
        i = i + 1;
    }
    proof {
        lemma_find_named_skip(ev, name@, i as int);
        assert(ev.skip(i as int).len() == 0);
    }
    String::new()
}

fn concat3(a: &str, b: &str, c: &str) -> (r: String)
    ensures
        r@ == a@ + b@ + c@,
{
    let mut v = chars_of(a);
    let y = chars_of(b);
    extend_chars(&mut v, &y);
    let z = chars_of(c);
    extend_chars(&mut v, &z);
    string_of(&v)
}

impl LaunchEnv {
    fn apply_file(&mut self, name: &str, contents: &str, entries: &[(String, String)])
        ensures
            final(self)@ == apply_env_file(old(self)@, name@, contents@, pair_views(entries@)),
    {
        let chars = chars_of(name);
        let parts = split_chars(&chars, '.');
        proof {
            crate::text::lemma_split_first(name@, '.');
            assert(views(parts@)[0] == parts@[0]@);
        }
        let var = string_of(parts[0].as_slice());
        if parts.len() == 1 {
            self.set(var.as_str(), contents);
            return;
        }
        assert(views(parts@).len() > 1);
        assert(parts@[0]@.len() + 1 <= chars@.len());
        let n = chars.len();
        let start = parts[0].len() + 1;
        let sfx_chars = crate::text::slice_chars(&chars, start, n);
        assert(sfx_chars@ =~= name@.skip(var@.len() + 1int));
        let sfx = string_of(sfx_chars.as_slice());
        if str_eq(sfx.as_str(), "override") {
            self.set(var.as_str(), contents);
        } else if str_eq(sfx.as_str(), "default") {
            if self.get(var.as_str()).is_none() {
                self.set(var.as_str(), contents);
            }
        } else if str_eq(sfx.as_str(), "append") || str_eq(sfx.as_str(), "prepend") {
            let existing = match self.get(var.as_str()) {
                Some(v) => v,
                None => String::new(),
            };
            let d = delimiter(entries, var.as_str());
            let result = if existing.as_str().is_empty() {
                to_string(contents)
            } else if str_eq(sfx.as_str(), "append") {
                concat3(existing.as_str(), d.as_str(), contents)
            } else {
                concat3(contents, d.as_str(), existing.as_str())
            };
            self.set(var.as_str(), result.as_str());
        }
    }

    /// Applies the files of an env directory, given as (file name, contents) pairs (the
    /// directory's entries that are not directories): in order of name, each file's
    /// modification (see [`apply_env_file`]).
    pub fn apply_env_dir_modifications(&mut self, entries: &[(String, String)])
        ensures
            final(self)@ == apply_env_files(
                old(self)@,
                sorted_by_name(pair_views(entries@)),
                pair_views(entries@),
            ),
    {
        let sorted = sort_by_name(entries);
        let ghost sv = pair_views(sorted@);
        let mut i: usize = 0;
        assert(sv.take(0) =~= Seq::<(Seq<char>, Seq<char>)>::empty());
        while i < sorted.len()
            invariant
                i <= sorted@.len(),
                sv == pair_views(sorted@),
                self@ == apply_env_files(old(self)@, sv.take(i as int), pair_views(entries@)),
            decreases sorted@.len() - i,
        {
            self.apply_file(sorted[i].0.as_str(), sorted[i].1.as_str(), entries);
            assert(sv.take(i + 1).drop_last() =~= sv.take(i as int));
            assert(sv.take(i + 1).last() == (sorted@[i as int].0@, sorted@[i as int].1@));
            i = i + 1;
        }
        assert(sv.take(sorted@.len() as int) =~= sv);
    }
}

} // verus!
