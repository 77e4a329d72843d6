//! Properties of the library that span several of its functions, proved over the
//! specifications that the functions' contracts use.
use crate::api::buildpack::{buildpack_api_outcome, spec_supported_buildpack_apis};
use crate::api::platform::{platform_api_outcome, spec_supported_platform_apis};
use crate::api::{parse_version, spec_any_superset, version_lt, version_text, Version};
use crate::text::{
    all_digits, decimal, digit_char, digit_value, digits_value, is_ascii_digit, is_white_space,
    join, parse_u64, split, strip_leading, trim, trim_end, trim_start,
};
use crate::env::{
    apply_env_file, apply_env_files, cleaned_search_path, file_suffix, file_variable, insert_by_name, is_excluded_path,
    is_launcher_variable, kept_entries, map_of, name_less, prepend_each, sanitized, sorted_by_name,
    without_launcher_variables,
};
use crate::plan::{
    buildpack_steps, launch_plan_spec, layer_dirs, layer_phase_steps, layers_steps, phase_steps,
    plan_root_dirs, root_steps, search_path_order, Phase, StepView,
};
use crate::env::{normal_parts, paths_equal};
use crate::launch::plain_path;
use crate::cli::{all_ascii, ascii_lowercase, color_enabled, text_lowercase};
use vstd::prelude::*;

verus! {

// ---------------------------------------------------------------- decimal text

proof fn lemma_digit_char(d: nat)
    requires
        d < 10,
    ensures
        is_ascii_digit(digit_char(d)),
        digit_value(digit_char(d)) == d,
        !is_white_space(digit_char(d)),
        digit_char(d) != '.',
        digit_char(d) != 'v',
        digit_char(d) != '+',
{
}

proof fn lemma_decimal(n: nat)
    ensures
        decimal(n).len() >= 1,
        all_digits(decimal(n)),
        digits_value(decimal(n)) == n,
    decreases n,
{
    if n < 10 {
        lemma_digit_char(n);
        let s = decimal(n);
        assert(s.drop_last() =~= Seq::<char>::empty());
        assert(s.last() == digit_char(n));
        assert(digits_value(s) == digits_value(s.drop_last()) * 10 + digit_value(s.last()));
        assert(digits_value(Seq::<char>::empty()) == 0);
    } else {
        lemma_decimal(n / 10);
        lemma_digit_char(n % 10);
        let s = decimal(n);
        assert(s.drop_last() =~= decimal(n / 10));
        assert(s.last() == digit_char(n % 10));
        assert(digits_value(s) == digits_value(s.drop_last()) * 10 + digit_value(s.last()));
        assert((n / 10) * 10 + n % 10 == n) by (nonlinear_arith);
        assert forall|i: int| 0 <= i < s.len() implies is_ascii_digit(#[trigger] s[i]) by {
            if i < s.len() - 1 {
                assert(s[i] == decimal(n / 10)[i]);
            }
        }
    }
}

proof fn lemma_parse_decimal(n: u64)
    ensures
        parse_u64(decimal(n as nat)) == Some(n),
{
    lemma_decimal(n as nat);
    let s = decimal(n as nat);
    assert(is_ascii_digit(s[0]));
}

// ---------------------------------------------------------------- split and join

/// Splitting `s + t`, where `t` has no separator, extends the last piece of `s` by `t`.
proof fn lemma_split_append_plain(s: Seq<char>, t: Seq<char>, c: char)
    requires
        !t.contains(c),
    ensures
        split(s + t, c) == split(s, c).update(
            split(s, c).len() - 1,
            split(s, c).last() + t,
        ),
    decreases t.len(),
{
    crate::text::lemma_split_nonempty(s, c);
    if t.len() == 0 {
        assert(s + t =~= s);
        assert(split(s, c).last() + t =~= split(s, c).last());
        assert(split(s, c).update(split(s, c).len() - 1, split(s, c).last()) =~= split(s, c));
    } else {
        let u = t.drop_last();
        assert(!u.contains(c)) by {
            if u.contains(c) {
                let k = choose|k: int| 0 <= k < u.len() && u[k] == c;
                assert(t[k] == c);
            }
        }
        lemma_split_append_plain(s, u, c);
        assert((s + t).drop_last() =~= s + u);
        assert((s + t).last() == t.last());
        assert(t.last() != c) by {
            assert(t[t.len() - 1] == t.last());
        }
        crate::text::lemma_split_nonempty(s + u, c);
        let q = split(s, c);
        let r = split(s + u, c);
        assert(r.len() == q.len());
        assert(r.last() == q.last() + u);
        assert(split(s + t, c) == r.update(r.len() - 1, r.last().push(t.last())));
        assert((q.last() + u).push(t.last()) =~= q.last() + t);
        assert(split(s + t, c) =~= split(s, c).update(
            split(s, c).len() - 1,
            split(s, c).last() + t,
        ));
    }
}

proof fn lemma_split_plain(t: Seq<char>, c: char)
    requires
        !t.contains(c),
    ensures
        split(t, c) == seq![t],
{
    lemma_split_append_plain(Seq::<char>::empty(), t, c);
    assert(Seq::<char>::empty() + t =~= t);
    assert(split(Seq::<char>::empty(), c) =~= seq![Seq::<char>::empty()]);
    assert(Seq::<char>::empty() + t =~= t);
}

proof fn lemma_split_sep_plain(a: Seq<char>, b: Seq<char>, c: char)
    requires
        !b.contains(c),
    ensures
        split(a + seq![c] + b, c) == split(a, c).push(b),
{
    let s = a + seq![c];
    assert(s.drop_last() =~= a);
    assert(s.last() == c);
    assert(split(s, c) == split(a, c).push(Seq::<char>::empty()));
    lemma_split_append_plain(s, b, c);
    assert(Seq::<char>::empty() + b =~= b);
    assert(split(a, c).push(Seq::<char>::empty()).update(split(a, c).len() as int, b) =~= split(
        a,
        c,
    ).push(b));
}

/// Splitting on a character and joining the pieces with it gives back the text.
pub proof fn split_join_roundtrip(s: Seq<char>, c: char)
    ensures
        join(split(s, c), seq![c]) == s,
    decreases s.len(),
{
    if s.len() == 0 {
    } else {
        split_join_roundtrip(s.drop_last(), c);
        crate::text::lemma_split_nonempty(s.drop_last(), c);
        let r = split(s.drop_last(), c);
        if s.last() == c {
            assert(r.push(Seq::<char>::empty()).drop_last() =~= r);
            assert(join(r, seq![c]) + seq![c] + Seq::<char>::empty() =~= s);
        } else {
            assert(r.last().push(s.last()).take(r.last().len() as int) =~= r.last());
            join_update_last(r, seq![c], r.last().push(s.last()));
            assert(r.last().push(s.last()).skip(r.last().len() as int) =~= seq![s.last()]);
            assert(r.last() == r[r.len() - 1]);
            assert(s =~= join(r, seq![c]).push(s.last()));
        }
    }
}

proof fn join_update_last(parts: Seq<Seq<char>>, sep: Seq<char>, x: Seq<char>)
    requires
        parts.len() >= 1,
        x.len() >= parts.last().len(),
        x.take(parts.last().len() as int) == parts.last(),
    ensures
        join(parts.update(parts.len() - 1, x), sep) == join(parts, sep) + x.skip(
            parts.last().len() as int,
        ),
{
    let u = parts.update(parts.len() - 1, x);
    let tail = x.skip(parts.last().len() as int);
    assert(x =~= parts.last() + tail);
    if parts.len() == 1 {
    } else {
        assert(u.drop_last() =~= parts.drop_last());
    }
}

/// Joining pieces that hold no separator and splitting the result gives back the pieces.
pub proof fn join_split_roundtrip(parts: Seq<Seq<char>>, c: char)
    requires
        parts.len() >= 1,
        forall|i: int| 0 <= i < parts.len() ==> !(#[trigger] parts[i]).contains(c),
    ensures
        split(join(parts, seq![c]), c) == parts,
    decreases parts.len(),
{
    if parts.len() == 1 {
        lemma_split_plain(parts[0], c);
        assert(seq![parts[0]] =~= parts);
    } else {
        let init = parts.drop_last();
        assert forall|i: int| 0 <= i < init.len() implies !(#[trigger] init[i]).contains(c) by {
            assert(init[i] == parts[i]);
        }
        join_split_roundtrip(init, c);
        assert(parts.last() == parts[parts.len() - 1]);
        lemma_split_sep_plain(join(init, seq![c]), parts.last(), c);
        assert(join(init, seq![c]) + seq![c] + parts.last() == join(parts, seq![c]));
        assert(init.push(parts.last()) =~= parts);
    }
}

/// No piece of a split holds the separator.
pub proof fn split_pieces_lack_separator(s: Seq<char>, c: char)
    ensures
        forall|i: int| 0 <= i < split(s, c).len() ==> !(#[trigger] split(s, c)[i]).contains(c),
    decreases s.len(),
{
    if s.len() > 0 {
        split_pieces_lack_separator(s.drop_last(), c);
        crate::text::lemma_split_nonempty(s.drop_last(), c);
        let r = split(s.drop_last(), c);
        assert forall|i: int| 0 <= i < split(s, c).len() implies !(#[trigger] split(s, c)[i]).contains(c) by {
            if s.last() == c {
                if i < r.len() {
                    assert(split(s, c)[i] == r[i]);
                } else {
                    assert(split(s, c)[i] == Seq::<char>::empty());
                }
            } else {
                if i < r.len() - 1 {
                    assert(split(s, c)[i] == r[i]);
                } else {
                    let p = r.last().push(s.last());
                    assert(split(s, c)[i] == p);
                    assert(!r[r.len() - 1].contains(c));
                    if p.contains(c) {
                        let k = choose|k: int| 0 <= k < p.len() && p[k] == c;
                        if k < p.len() - 1 {
                            assert(r.last()[k] == c);
                        }
                    }
                }
            }
        }
    }
}

// ---------------------------------------------------------------- versions

/// The text that `Display` writes for a version parses back to the same version.
pub proof fn version_text_parses_back(v: Version)
    ensures
        parse_version(version_text(v)) == Ok::<Version, Seq<char>>(v),
{
    let a = decimal(v.major as nat);
    let b = decimal(v.minor as nat);
    lemma_decimal(v.major as nat);
    lemma_decimal(v.minor as nat);
    lemma_digit_char(0);
    let t = version_text(v);
    assert(t == a + seq!['.'] + b);
    assert(t[0] == a[0]);
    assert(is_ascii_digit(a[0]));
    assert(strip_leading(t, 'v') == t);
    assert(t.last() == b.last()) by {
        assert(t[t.len() - 1] == b[b.len() - 1]);
    }
    assert(is_ascii_digit(b[b.len() - 1]));
    assert(trim_start(t) == t);
    assert(trim_end(t) == t);
    assert(trim(t) == t);
    assert(!b.contains('.')) by {
        if b.contains('.') {
            let k = choose|k: int| 0 <= k < b.len() && b[k] == '.';
            assert(is_ascii_digit(b[k]));
        }
    }
    assert(!a.contains('.')) by {
        if a.contains('.') {
            let k = choose|k: int| 0 <= k < a.len() && a[k] == '.';
            assert(is_ascii_digit(a[k]));
        }
    }
    lemma_split_sep_plain(a, b, '.');
    lemma_split_plain(a, '.');
    let parts = split(t, '.');
    assert(parts =~= seq![a, b]);
    lemma_parse_decimal(v.major);
    lemma_parse_decimal(v.minor);
}

/// Where the text parses, a version is less than it exactly when it is not at least it.
pub proof fn less_than_complements_at_least(v: Version, s: Seq<char>)
    requires
        parse_version(s) is Ok,
    ensures
        (parse_version(s) matches Ok(o) && version_lt(v, o)) == !(parse_version(s) matches Ok(o)
            && !version_lt(v, o)),
{
}

/// Every version is a superset of itself.
pub proof fn superset_is_reflexive(v: Version)
    ensures
        v.spec_is_superset_of(v),
{
}

/// The superset relation is transitive.
pub proof fn superset_is_transitive(a: Version, b: Version, c: Version)
    requires
        a.spec_is_superset_of(b),
        b.spec_is_superset_of(c),
    ensures
        a.spec_is_superset_of(c),
{
}

/// A version is never below a version it is a superset of.
pub proof fn superset_is_not_below(a: Version, b: Version)
    requires
        a.spec_is_superset_of(b),
    ensures
        !version_lt(a, b),
{
}

/// Each supported Platform API version, written as `Display` writes it, verifies to itself.
pub proof fn supported_platform_versions_verify(i: int, r: Result<Version, crate::api::platform::PlatformApiError>)
    requires
        0 <= i < spec_supported_platform_apis().len(),
        platform_api_outcome(version_text(spec_supported_platform_apis()[i]), r),
    ensures
        r == Ok::<Version, crate::api::platform::PlatformApiError>(spec_supported_platform_apis()[i]),
{
    let v = spec_supported_platform_apis()[i];
    version_text_parses_back(v);
    lemma_trim_version_text(v);
    assert(spec_any_superset(v, spec_supported_platform_apis()));
}

/// Each supported Buildpack API version, written as `Display` writes it, verifies to itself.
pub proof fn supported_buildpack_versions_verify(
    i: int,
    bp_id: Seq<char>,
    r: Result<Version, crate::api::buildpack::BuildpackApiError>,
)
    requires
        0 <= i < spec_supported_buildpack_apis().len(),
        buildpack_api_outcome(bp_id, version_text(spec_supported_buildpack_apis()[i]), r),
    ensures
        r == Ok::<Version, crate::api::buildpack::BuildpackApiError>(spec_supported_buildpack_apis()[i]),
{
    let v = spec_supported_buildpack_apis()[i];
    version_text_parses_back(v);
    lemma_trim_version_text(v);
    assert(spec_any_superset(v, spec_supported_buildpack_apis()));
}

proof fn lemma_trim_version_text(v: Version)
    ensures
        trim(version_text(v)) == version_text(v),
{
    let a = decimal(v.major as nat);
    let b = decimal(v.minor as nat);
    lemma_decimal(v.major as nat);
    lemma_decimal(v.minor as nat);
    let t = version_text(v);
    assert(t[0] == a[0]);
    assert(t[t.len() - 1] == b[b.len() - 1]);
    assert(is_ascii_digit(a[0]));
    assert(is_ascii_digit(b[b.len() - 1]));
    assert(trim_start(t) == t);
    assert(trim_end(t) == t);
}


// ---------------------------------------------------------------- launch environment

proof fn lemma_without_launcher_variables(s: Seq<(Seq<char>, Seq<char>)>, k: Seq<char>)
    ensures
        is_launcher_variable(k) ==> !map_of(without_launcher_variables(s)).contains_key(k),
        !is_launcher_variable(k) ==> (map_of(without_launcher_variables(s)).contains_key(k)
            <==> map_of(s).contains_key(k)),
        !is_launcher_variable(k) && map_of(s).contains_key(k) ==> map_of(
            without_launcher_variables(s),
        )[k] == map_of(s)[k],
    decreases s.len(),
{
    if s.len() > 0 {
        lemma_without_launcher_variables(s.drop_last(), k);
        let w = without_launcher_variables(s.drop_last());
        if !is_launcher_variable(s.last().0) {
            assert(w.push(s.last()).drop_last() =~= w);
        }
    }
}

/// The launch environment never holds one of the launcher's own variables.
pub proof fn launch_env_has_no_launcher_variables(
    host: Seq<(Seq<char>, Seq<char>)>,
    excluded: Seq<Seq<char>>,
    name: Seq<char>,
)
    requires
        is_launcher_variable(name),
    ensures
        !sanitized(host, excluded).contains_key(name),
{
    lemma_without_launcher_variables(host, name);
}

/// Every host variable other than `PATH` and the launcher's own reaches the launch
/// environment unchanged, and no other variable appears.
pub proof fn launch_env_keeps_other_variables(
    host: Seq<(Seq<char>, Seq<char>)>,
    excluded: Seq<Seq<char>>,
    name: Seq<char>,
)
    requires
        !is_launcher_variable(name),
        name != "PATH"@,
    ensures
        sanitized(host, excluded).contains_key(name) <==> map_of(host).contains_key(name),
        map_of(host).contains_key(name) ==> sanitized(host, excluded)[name] == map_of(host)[name],
{
    lemma_without_launcher_variables(host, name);
}

proof fn lemma_kept_entries(parts: Seq<Seq<char>>, excluded: Seq<Seq<char>>, c: char)
    requires
        forall|i: int| 0 <= i < parts.len() ==> !(#[trigger] parts[i]).contains(c),
    ensures
        forall|i: int|
            0 <= i < kept_entries(parts, excluded).len() ==> !(#[trigger] kept_entries(
                parts,
                excluded,
            )[i]).contains(c) && !is_excluded_path(kept_entries(parts, excluded)[i], excluded),
    decreases parts.len(),
{
    if parts.len() > 0 {
        let init = parts.drop_last();
        assert forall|i: int| 0 <= i < init.len() implies !(#[trigger] init[i]).contains(c) by {
            assert(init[i] == parts[i]);
        }
        lemma_kept_entries(init, excluded, c);
        assert(parts.last() == parts[parts.len() - 1]);
        let k = kept_entries(init, excluded);
        let r = kept_entries(parts, excluded);
        assert forall|i: int| 0 <= i < r.len() implies !(#[trigger] r[i]).contains(c)
            && !is_excluded_path(r[i], excluded) by {
            if i < k.len() {
                assert(r[i] == k[i]);
            } else {
                assert(r[i] == parts.last());
            }
        }
    }
}

/// Once cleaned, a search path holds none of the excluded directories (unless nothing at
/// all is left of it).
pub proof fn cleaned_path_has_no_excluded_entries(v: Seq<char>, excluded: Seq<Seq<char>>)
    requires
        cleaned_search_path(v, excluded).len() > 0,
    ensures
        forall|i: int|
            0 <= i < split(cleaned_search_path(v, excluded), ':').len() ==> !is_excluded_path(
                #[trigger] split(cleaned_search_path(v, excluded), ':')[i],
                excluded,
            ),
{
    reveal_strlit(":");
    assert(":"@ == seq![':']);
    split_pieces_lack_separator(v, ':');
    let kept = kept_entries(split(v, ':'), excluded);
    lemma_kept_entries(split(v, ':'), excluded, ':');
    assert(kept.len() >= 1);
    join_split_roundtrip(kept, ':');
}

/// The files of an env directory each change only the variable that they name.
pub proof fn env_file_changes_only_its_variable(
    m: Map<Seq<char>, Seq<char>>,
    name: Seq<char>,
    contents: Seq<char>,
    entries: Seq<(Seq<char>, Seq<char>)>,
    k: Seq<char>,
)
    requires
        k != file_variable(name),
    ensures
        apply_env_file(m, name, contents, entries).contains_key(k) <==> m.contains_key(k),
        m.contains_key(k) ==> apply_env_file(m, name, contents, entries)[k] == m[k],
{
}

// ---------------------------------------------------------------- colour

/// Setting `CNB_NO_COLOR` to `true` in any letter case, with any white space around it,
/// turns colour off, whether or not standard error is a terminal.
pub proof fn no_color_true_disables_color(v: Seq<char>, stderr_is_terminal: bool)
    requires
        all_ascii(trim(v)),
        ascii_lowercase(trim(v)) == "true"@,
    ensures
        !color_enabled(Some(v), stderr_is_terminal),
{
}

/// Any other value of `CNB_NO_COLOR`, or none, leaves colour to whether standard error is
/// a terminal.
pub proof fn color_follows_terminal_otherwise(no_color: Option<Seq<char>>, stderr_is_terminal: bool)
    requires
        no_color matches Some(v) ==> text_lowercase(trim(v)) != "true"@,
    ensures
        color_enabled(no_color, stderr_is_terminal) == stderr_is_terminal,
{
}

// ---------------------------------------------------------------- paths

/// A path and the same path with a separator after it are the same path (`/a` and `/a/`),
/// so excluding one from a search path excludes the other.
pub proof fn trailing_separator_names_same_path(p: Seq<char>)
    requires
        p.len() > 0,
        plain_path(p),
        plain_path(p + seq!['/']),
    ensures
        paths_equal(p, p + seq!['/']),
        paths_equal(p + seq!['/'], p),
{
    let q = p + seq!['/'];
    assert(q.drop_last() =~= p);
    assert(q.last() == '/');
    assert(split(q, '/') == split(p, '/').push(Seq::<char>::empty()));
    crate::text::lemma_split_nonempty(p, '/');
    assert(split(q, '/')[0] == split(p, '/')[0]);
    assert(split(q, '/').drop_last() =~= split(p, '/'));
    assert(normal_parts(q) == normal_parts(p)) by {
        reveal(Seq::filter);
    }
    assert(q[0] == p[0]);
}

// ---------------------------------------------------------------- env directories

/// Whether a file of an env directory leaves the variable `var` alone: it names another
/// variable, or it is a delimiter file.
pub open spec fn leaves_variable(f: (Seq<char>, Seq<char>), var: Seq<char>) -> bool {
    file_variable(f.0) != var || file_suffix(f.0) == Some("delim"@)
}

/// Whether a file of an env directory is ignored: its suffix is none of `override`,
/// `default`, `append` and `prepend` (a `.delim` file, or an unknown suffix).
pub open spec fn ignored_file(name: Seq<char>) -> bool {
    file_suffix(name) matches Some(sfx) && sfx != "override"@ && sfx != "default"@ && sfx
        != "append"@ && sfx != "prepend"@
}

proof fn lemma_ignored_file(
    m: Map<Seq<char>, Seq<char>>,
    name: Seq<char>,
    contents: Seq<char>,
    entries: Seq<(Seq<char>, Seq<char>)>,
)
    requires
        ignored_file(name),
    ensures
        apply_env_file(m, name, contents, entries) == m,
{
}

proof fn lemma_suffix_words()
    ensures
        "delim"@ != "override"@,
        "delim"@ != "default"@,
        "delim"@ != "append"@,
        "delim"@ != "prepend"@,
        "append"@ != "override"@,
        "append"@ != "default"@,
        "prepend"@ != "override"@,
        "prepend"@ != "default"@,
        "default"@ != "override"@,
        "append"@ != "prepend"@,
{
    reveal_strlit("delim");
    reveal_strlit("override");
    reveal_strlit("default");
    reveal_strlit("append");
    reveal_strlit("prepend");
    assert("delim"@.len() != "override"@.len());
    assert("delim"@.len() != "default"@.len());
    assert("delim"@.len() != "append"@.len());
    assert("delim"@.len() != "prepend"@.len());
    assert("append"@.len() != "override"@.len());
    assert("append"@.len() != "default"@.len());
    assert("prepend"@[1] != "override"@[1]);
    assert("prepend"@[0] != "default"@[0]);
    assert("default"@.len() != "override"@.len());
    assert("append"@.len() != "prepend"@.len());
}

proof fn lemma_delim_is_ignored(name: Seq<char>)
    requires
        file_suffix(name) == Some("delim"@),
    ensures
        ignored_file(name),
{
    lemma_suffix_words();
}

proof fn lemma_files_leave_variable(
    m: Map<Seq<char>, Seq<char>>,
    files: Seq<(Seq<char>, Seq<char>)>,
    entries: Seq<(Seq<char>, Seq<char>)>,
    var: Seq<char>,
)
    requires
        forall|k: int| 0 <= k < files.len() ==> leaves_variable(#[trigger] files[k], var),
    ensures
        apply_env_files(m, files, entries).contains_key(var) <==> m.contains_key(var),
        m.contains_key(var) ==> apply_env_files(m, files, entries)[var] == m[var],
    decreases files.len(),
{
    if files.len() > 0 {
        lemma_files_leave_variable(m, files.drop_last(), entries, var);
        let prev = apply_env_files(m, files.drop_last(), entries);
        let f = files.last();
        assert(leaves_variable(files[files.len() - 1], var));
        if file_variable(f.0) != var {
            env_file_changes_only_its_variable(prev, f.0, f.1, entries, var);
        } else {
            lemma_delim_is_ignored(f.0);
            lemma_ignored_file(prev, f.0, f.1, entries);
        }
    }
}

proof fn lemma_appended_once(
    m: Map<Seq<char>, Seq<char>>,
    files: Seq<(Seq<char>, Seq<char>)>,
    entries: Seq<(Seq<char>, Seq<char>)>,
    var: Seq<char>,
    target: (Seq<char>, Seq<char>),
)
    requires
        file_variable(target.0) == var,
        file_suffix(target.0) == Some("append"@) || file_suffix(target.0) == Some("prepend"@),
        !m.contains_key(var) || m[var].len() == 0,
        files.to_multiset().count(target) == 1,
        forall|k: int|
            0 <= k < files.len() ==> #[trigger] files[k] == target || leaves_variable(files[k], var),
    ensures
        apply_env_files(m, files, entries).contains_key(var),
        apply_env_files(m, files, entries)[var] == target.1,
    decreases files.len(),
{
    broadcast use vstd::seq_lib::group_to_multiset_ensures;

    let pre = files.drop_last();
    let f = files.last();
    assert(pre.push(f) =~= files);
    assert(files[files.len() - 1] == f);
    if f == target {
        assert(pre.to_multiset().count(target) == 0);
        assert forall|k: int| 0 <= k < pre.len() implies leaves_variable(#[trigger] pre[k], var) by {
            assert(files[k] == pre[k]);
            if pre[k] == target {
                assert(pre.contains(target));
            }
        }
        lemma_files_leave_variable(m, pre, entries, var);
        lemma_suffix_words();
    } else {
        assert(pre.to_multiset().count(target) == 1);
        assert forall|k: int|
            0 <= k < pre.len() implies #[trigger] pre[k] == target || leaves_variable(pre[k], var) by {
            assert(files[k] == pre[k]);
        }
        lemma_appended_once(m, pre, entries, var, target);
        let prev = apply_env_files(m, pre, entries);
        assert(leaves_variable(f, var));
        if file_variable(f.0) != var {
            env_file_changes_only_its_variable(prev, f.0, f.1, entries, var);
        } else {
            lemma_delim_is_ignored(f.0);
            lemma_ignored_file(prev, f.0, f.1, entries);
        }
    }
}

/// An `.append` or `.prepend` file onto a variable that is unset or empty sets it to the
/// file's contents, leaving out the delimiter: where the directory holds one such file for
/// the variable and its other files leave the variable alone (they name other variables,
/// or are its `.delim` file), the variable ends up as that file's contents.
pub proof fn append_onto_unset_value_omits_delimiter(
    m: Map<Seq<char>, Seq<char>>,
    entries: Seq<(Seq<char>, Seq<char>)>,
    i: int,
)
    requires
        0 <= i < entries.len(),
        file_suffix(entries[i].0) == Some("append"@) || file_suffix(entries[i].0) == Some(
            "prepend"@,
        ),
        !m.contains_key(file_variable(entries[i].0)) || m[file_variable(entries[i].0)].len() == 0,
        forall|j: int|
            0 <= j < entries.len() && j != i ==> leaves_variable(
                #[trigger] entries[j],
                file_variable(entries[i].0),
            ),
    ensures
        apply_env_files(m, sorted_by_name(entries), entries).contains_key(
            file_variable(entries[i].0),
        ),
        apply_env_files(m, sorted_by_name(entries), entries)[file_variable(entries[i].0)]
            == entries[i].1,
{
    broadcast use vstd::seq_lib::group_to_multiset_ensures;

    let target = entries[i];
    let var = file_variable(target.0);
    lemma_suffix_words();
    assert(!leaves_variable(target, var));
    lemma_multiset_reinsert(entries, i);
    let rest = entries.remove(i);
    assert forall|k: int| 0 <= k < rest.len() implies #[trigger] rest[k] != target by {
        if k < i {
            assert(rest[k] == entries[k]);
        } else {
            assert(rest[k] == entries[k + 1]);
        }
    }
    assert(!rest.contains(target));
    assert(entries.to_multiset().count(target) == 1);
    let sorted = sorted_by_name(entries);
    sorted_by_name_sorts(entries);
    assert forall|k: int|
        0 <= k < sorted.len() implies #[trigger] sorted[k] == target || leaves_variable(
            sorted[k],
            var,
        ) by {
        assert(sorted.contains(sorted[k]));
        assert(entries.to_multiset().count(sorted[k]) > 0);
        assert(entries.contains(sorted[k]));
        let j = choose|j: int| 0 <= j < entries.len() && entries[j] == sorted[k];
        if j != i {
            assert(leaves_variable(entries[j], var));
        }
    }
    lemma_appended_once(m, sorted, entries, var, target);
}

proof fn lemma_ignored_files(
    m: Map<Seq<char>, Seq<char>>,
    files: Seq<(Seq<char>, Seq<char>)>,
    entries: Seq<(Seq<char>, Seq<char>)>,
)
    requires
        forall|k: int| 0 <= k < files.len() ==> ignored_file((#[trigger] files[k]).0),
    ensures
        apply_env_files(m, files, entries) == m,
    decreases files.len(),
{
    if files.len() > 0 {
        lemma_ignored_files(m, files.drop_last(), entries);
        assert(ignored_file(files[files.len() - 1].0));
        lemma_ignored_file(m, files.last().0, files.last().1, entries);
    }
}

/// An env directory whose files are all ignored (`.delim` files, or files with an unknown
/// suffix such as `FOO.invalid` or `MY.VAR.override`, whose variable ends at the first dot)
/// leaves the environment unchanged.
pub proof fn ignored_files_change_nothing(m: Map<Seq<char>, Seq<char>>, entries: Seq<(Seq<char>, Seq<char>)>)
    requires
        forall|k: int| 0 <= k < entries.len() ==> ignored_file((#[trigger] entries[k]).0),
    ensures
        apply_env_files(m, sorted_by_name(entries), entries) == m,
{
    broadcast use vstd::seq_lib::group_to_multiset_ensures;

    let sorted = sorted_by_name(entries);
    sorted_by_name_sorts(entries);
    assert forall|k: int| 0 <= k < sorted.len() implies ignored_file((#[trigger] sorted[k]).0) by {
        assert(sorted.contains(sorted[k]));
        assert(entries.to_multiset().count(sorted[k]) > 0);
        assert(entries.contains(sorted[k]));
    }
    lemma_ignored_files(m, sorted, entries);
}

// ---------------------------------------------------------------- layer search paths

proof fn lemma_join_prepend(x: Seq<char>, rest: Seq<Seq<char>>, sep: Seq<char>)
    requires
        rest.len() > 0,
    ensures
        join(seq![x] + rest, sep) == x + sep + join(rest, sep),
    decreases rest.len(),
{
    let s = seq![x] + rest;
    assert(s.drop_last() =~= seq![x] + rest.drop_last());
    assert(s.last() == rest.last());
    assert(join(s, sep) == join(s.drop_last(), sep) + sep + s.last());
    if rest.len() == 1 {
        assert(seq![x] + rest.drop_last() =~= seq![x]);
        assert(join(seq![x], sep) == x);
        assert(join(rest, sep) == rest[0]);
    } else {
        lemma_join_prepend(x, rest.drop_last(), sep);
        assert(join(rest, sep) == join(rest.drop_last(), sep) + sep + rest.last());
        assert(x + sep + join(rest.drop_last(), sep) + sep + rest.last() =~= x + sep + (join(
            rest.drop_last(),
            sep,
        ) + sep + rest.last()));
    }
}

/// Each directory prepended to a search-path variable goes ahead of those prepended before
/// it: after `dirs` are prepended one by one, the variable lists them last one first,
/// followed by what it held before, where it was set. So the layers of a buildpack,
/// prepended in reverse order of name, come out in ascending order, ahead of the layers of
/// the buildpacks handled before it.
pub proof fn prepended_dirs_come_last_first(
    m: Map<Seq<char>, Seq<char>>,
    var: Seq<char>,
    dirs: Seq<Seq<char>>,
)
    requires
        dirs.len() > 0,
    ensures
        prepend_each(m, var, dirs).contains_key(var),
        prepend_each(m, var, dirs)[var] == if m.contains_key(var) {
            join(dirs.reverse(), ":"@) + ":"@ + m[var]
        } else {
            join(dirs.reverse(), ":"@)
        },
    decreases dirs.len(),
{
    let d = dirs.last();
    let rest = dirs.drop_last();
    assert(dirs.reverse() =~= seq![d] + rest.reverse());
    if rest.len() == 0 {
        assert(rest.reverse() =~= Seq::<Seq<char>>::empty());
        assert(seq![d] + rest.reverse() =~= seq![d]);
        assert(prepend_each(m, var, rest) == m);
        if m.contains_key(var) {
            assert(seq![':'] =~= ":"@) by {
                reveal_strlit(":");
            }
        }
    } else {
        prepended_dirs_come_last_first(m, var, rest);
        lemma_join_prepend(d, rest.reverse(), ":"@);
        assert(seq![':'] =~= ":"@) by {
            reveal_strlit(":");
        }
        if m.contains_key(var) {
            assert(d + seq![':'] + (join(rest.reverse(), ":"@) + ":"@ + m[var]) =~= d + ":"@
                + join(rest.reverse(), ":"@) + ":"@ + m[var]);
        } else {
            assert(d + seq![':'] + join(rest.reverse(), ":"@) =~= d + ":"@ + join(
                rest.reverse(),
                ":"@,
            ));
        }
    }
}

// ---------------------------------------------------------------- launch sequence

proof fn lemma_root_dirs_concat(a: Seq<StepView>, b: Seq<StepView>)
    ensures
        plan_root_dirs(a + b) == plan_root_dirs(a) + plan_root_dirs(b),
    decreases b.len(),
{
    if b.len() == 0 {
        assert(a + b =~= a);
        assert(plan_root_dirs(a) + plan_root_dirs(b) =~= plan_root_dirs(a));
    } else {
        assert((a + b).drop_last() =~= a + b.drop_last());
        assert((a + b).last() == b.last());
        lemma_root_dirs_concat(a, b.drop_last());
        match b.last() {
            StepView::AddRootDir(d) => {
                assert(plan_root_dirs(a) + plan_root_dirs(b.drop_last()).push(d) =~= (plan_root_dirs(
                    a,
                ) + plan_root_dirs(b.drop_last())).push(d));
            },
            _ => {},
        }
    }
}

proof fn lemma_no_root_dirs(s: Seq<StepView>)
    requires
        forall|i: int| 0 <= i < s.len() ==> !((#[trigger] s[i]) is AddRootDir),
    ensures
        plan_root_dirs(s) == Seq::<Seq<char>>::empty(),
    decreases s.len(),
{
    if s.len() > 0 {
        assert(!(s[s.len() - 1] is AddRootDir));
        lemma_no_root_dirs(s.drop_last());
    }
}

proof fn lemma_layers_steps_no_root(phase: Phase, dir: Seq<char>, layers: Seq<Seq<char>>, t: Seq<char>)
    ensures
        plan_root_dirs(layers_steps(phase, dir, layers, t)) == Seq::<Seq<char>>::empty(),
    decreases layers.len(),
{
    if layers.len() > 0 {
        lemma_layers_steps_no_root(phase, dir, layers.drop_last(), t);
        let last = layer_phase_steps(phase, crate::plan::slash(dir, layers.last()), t);
        lemma_no_root_dirs(last);
        lemma_root_dirs_concat(layers_steps(phase, dir, layers.drop_last(), t), last);
        assert(Seq::<Seq<char>>::empty() + Seq::<Seq<char>>::empty() =~= Seq::<Seq<char>>::empty());
    }
}

proof fn lemma_root_steps(dir: Seq<char>, layers: Seq<Seq<char>>)
    ensures
        plan_root_dirs(root_steps(dir, layers)) == layer_dirs(dir, layers).reverse(),
    decreases layers.len(),
{
    if layers.len() == 0 {
        assert(layer_dirs(dir, layers).reverse() =~= Seq::<Seq<char>>::empty());
    } else {
        let head = seq![StepView::AddRootDir(crate::plan::slash(dir, layers.last()))];
        lemma_root_steps(dir, layers.drop_last());
        lemma_root_dirs_concat(head, root_steps(dir, layers.drop_last()));
        assert(head.drop_last() =~= Seq::<StepView>::empty());
        assert(head.last() == StepView::AddRootDir(crate::plan::slash(dir, layers.last())));
        assert(plan_root_dirs(head.drop_last()) == Seq::<Seq<char>>::empty());
        assert(plan_root_dirs(head) =~= seq![crate::plan::slash(dir, layers.last())]);
        assert(layer_dirs(dir, layers.drop_last()) =~= layer_dirs(dir, layers).drop_last());
        assert(layer_dirs(dir, layers).reverse() =~= seq![crate::plan::slash(dir, layers.last())]
            + layer_dirs(dir, layers.drop_last()).reverse());
    }
}

proof fn lemma_phase_root_dirs(
    phase: Phase,
    layers_dir: Seq<char>,
    bps: Seq<(Seq<char>, Seq<Seq<char>>)>,
    t: Seq<char>,
)
    ensures
        phase is Env ==> plan_root_dirs(phase_steps(phase, layers_dir, bps, t)).reverse()
            == search_path_order(layers_dir, bps),
        !(phase is Env) ==> plan_root_dirs(phase_steps(phase, layers_dir, bps, t))
            == Seq::<Seq<char>>::empty(),
    decreases bps.len(),
{
    if bps.len() == 0 {
        assert(Seq::<Seq<char>>::empty().reverse() =~= Seq::<Seq<char>>::empty());
    } else {
        lemma_phase_root_dirs(phase, layers_dir, bps.drop_last(), t);
        let dir = crate::plan::buildpack_dir(layers_dir, bps.last().0);
        let sorted = crate::env::sorted_names(bps.last().1);
        let prev = phase_steps(phase, layers_dir, bps.drop_last(), t);
        let cur = buildpack_steps(phase, dir, bps.last().1, t);
        lemma_root_dirs_concat(prev, cur);
        lemma_layers_steps_no_root(phase, dir, sorted, t);
        match phase {
            Phase::Env => {
                lemma_root_steps(dir, sorted);
                lemma_root_dirs_concat(root_steps(dir, sorted), layers_steps(phase, dir, sorted, t));
                let a = plan_root_dirs(prev);
                let b = layer_dirs(dir, sorted).reverse();
                assert(b + Seq::<Seq<char>>::empty() =~= b);
                assert((a + b).reverse() =~= b.reverse() + a.reverse());
                assert(b.reverse() =~= layer_dirs(dir, sorted));
            },
            _ => {
                assert(Seq::<Seq<char>>::empty() + Seq::<Seq<char>>::empty() =~= Seq::<Seq<char>>::empty());
            },
        }
    }
}

/// The launch sequence prepends root directories so that the search path lists the
/// buildpacks in reverse order and each buildpack's layers in ascending order of name:
/// where each layer directory `l` that the sequence adds contributes the entry `f(l)`,
/// prepending them in the sequence's order leaves the variable listing the entries of the
/// layers in [`search_path_order`], followed by what it held before, where it was set.
pub proof fn launch_plan_path_order(
    layers_dir: Seq<char>,
    bps: Seq<(Seq<char>, Seq<Seq<char>>)>,
    proc_type: Seq<char>,
    direct: bool,
    m: Map<Seq<char>, Seq<char>>,
    var: Seq<char>,
    f: spec_fn(Seq<char>) -> Seq<char>,
)
    requires
        search_path_order(layers_dir, bps).len() > 0,
    ensures
        plan_root_dirs(launch_plan_spec(layers_dir, bps, proc_type, direct)).reverse()
            == search_path_order(layers_dir, bps),
        prepend_each(
            m,
            var,
            plan_root_dirs(launch_plan_spec(layers_dir, bps, proc_type, direct)).map_values(f),
        )[var] == if m.contains_key(var) {
            join(search_path_order(layers_dir, bps).map_values(f), ":"@) + ":"@ + m[var]
        } else {
            join(search_path_order(layers_dir, bps).map_values(f), ":"@)
        },
{
    let env = phase_steps(Phase::Env, layers_dir, bps, proc_type);
    let exec = phase_steps(Phase::ExecD, layers_dir, bps, proc_type);
    let tail = if direct {
        seq![StepView::LaunchDirect]
    } else {
        phase_steps(Phase::Profile, layers_dir, bps, proc_type) + seq![
            StepView::AddAppProfile,
            StepView::LaunchShell,
        ]
    };
    lemma_phase_root_dirs(Phase::Env, layers_dir, bps, proc_type);
    lemma_phase_root_dirs(Phase::ExecD, layers_dir, bps, proc_type);
    lemma_phase_root_dirs(Phase::Profile, layers_dir, bps, proc_type);
    lemma_root_dirs_concat(env, exec);
    lemma_root_dirs_concat(env + exec, tail);
    let consts = seq![StepView::AddAppProfile, StepView::LaunchShell];
    lemma_no_root_dirs(consts);
    lemma_no_root_dirs(seq![StepView::LaunchDirect]);
    lemma_root_dirs_concat(phase_steps(Phase::Profile, layers_dir, bps, proc_type), consts);
    let e = Seq::<Seq<char>>::empty();
    assert(e + e =~= e);
    let roots = plan_root_dirs(env);
    assert(roots + e =~= roots);
    assert(plan_root_dirs(launch_plan_spec(layers_dir, bps, proc_type, direct)) == roots);
    assert(roots.reverse().len() == roots.len());
    prepended_dirs_come_last_first(m, var, roots.map_values(f));
    assert(roots.map_values(f).reverse() =~= roots.reverse().map_values(f));
}

// ---------------------------------------------------------------- order of names

proof fn lemma_name_less_irreflexive(a: Seq<char>)
    ensures
        !name_less(a, a),
    decreases a.len(),
{
    if a.len() > 0 {
        lemma_name_less_irreflexive(a.drop_first());
    }
}

proof fn lemma_name_less_transitive(a: Seq<char>, b: Seq<char>, c: Seq<char>)
    requires
        name_less(a, b),
        name_less(b, c),
    ensures
        name_less(a, c),
    decreases a.len(),
{
    if a.len() > 0 && b.len() > 0 && c.len() > 0 && a[0] == b[0] && b[0] == c[0] {
        lemma_name_less_transitive(a.drop_first(), b.drop_first(), c.drop_first());
    }
}

/// The order on names is a strict total order: irreflexive, transitive, and any two
/// different names are ordered one way or the other.
pub proof fn name_order_is_strict_total(a: Seq<char>, b: Seq<char>, c: Seq<char>)
    ensures
        !name_less(a, a),
        name_less(a, b) && name_less(b, c) ==> name_less(a, c),
        a != b ==> name_less(a, b) || name_less(b, a),
    decreases a.len(),
{
    lemma_name_less_irreflexive(a);
    if name_less(a, b) && name_less(b, c) {
        lemma_name_less_transitive(a, b, c);
    }
    if a != b {
        lemma_name_less_total(a, b);
    }
}

proof fn lemma_name_less_total(a: Seq<char>, b: Seq<char>)
    requires
        a != b,
    ensures
        name_less(a, b) || name_less(b, a),
    decreases a.len(),
{
    if a.len() > 0 && b.len() > 0 && a[0] == b[0] {
        if a.drop_first() == b.drop_first() {
            assert(a =~= seq![a[0]] + a.drop_first());
            assert(b =~= seq![b[0]] + b.drop_first());
        }
        lemma_name_less_total(a.drop_first(), b.drop_first());
    } else if a.len() == 0 && b.len() == 0 {
        assert(a =~= b);
    }
}

/// Whether the entries are in nondecreasing order of name.
pub open spec fn is_sorted_by_name(s: Seq<(Seq<char>, Seq<char>)>) -> bool {
    forall|i: int, j: int| 0 <= i < j < s.len() ==> !name_less(s[j].0, s[i].0)
}

proof fn lemma_multiset_reinsert(s: Seq<(Seq<char>, Seq<char>)>, i: int)
    requires
        0 <= i < s.len(),
    ensures
        s.to_multiset() == s.remove(i).to_multiset().insert(s[i]),
{
    broadcast use vstd::seq_lib::group_to_multiset_ensures;

    assert(s.contains(s[i]));
    assert(s.to_multiset().count(s[i]) > 0);
    assert(s.remove(i).to_multiset() == s.to_multiset().remove(s[i]));
    assert(s.to_multiset() =~= s.to_multiset().remove(s[i]).insert(s[i]));
}

proof fn lemma_insert_by_name(t: Seq<(Seq<char>, Seq<char>)>, x: (Seq<char>, Seq<char>))
    requires
        is_sorted_by_name(t),
    ensures
        is_sorted_by_name(insert_by_name(t, x)),
        insert_by_name(t, x).to_multiset() == t.to_multiset().insert(x),
        insert_by_name(t, x).len() == t.len() + 1,
        forall|i: int|
            0 <= i < insert_by_name(t, x).len() ==> ((#[trigger] insert_by_name(t, x)[i]) == x
                || t.contains(insert_by_name(t, x)[i])),
    decreases t.len(),
{
    broadcast use vstd::seq_lib::group_to_multiset_ensures;

    let r = insert_by_name(t, x);
    if t.len() == 0 {
        assert(r =~= Seq::<(Seq<char>, Seq<char>)>::empty().push(x));
    } else if name_less(x.0, t[0].0) {
        assert(r.remove(0) =~= t);
        lemma_multiset_reinsert(r, 0);
        assert forall|i: int, j: int| 0 <= i < j < r.len() implies !name_less(r[j].0, r[i].0) by {
            if i == 0 {
                assert(r[j] == t[j - 1]);
                if j - 1 > 0 {
                    assert(!name_less(t[j - 1].0, t[0].0));
                }
                if name_less(t[j - 1].0, x.0) {
                    lemma_name_less_transitive(t[j - 1].0, x.0, t[0].0);
                    if j - 1 == 0 {
                        lemma_name_less_irreflexive(t[0].0);
                    }
                }
            } else {
                assert(r[i] == t[i - 1]);
                assert(r[j] == t[j - 1]);
            }
        }
        assert forall|i: int| 0 <= i < r.len() implies ((#[trigger] r[i]) == x || t.contains(r[i])) by {
            if i > 0 {
                assert(r[i] == t[i - 1]);
            }
        }
    } else {
        let rest = t.drop_first();
        assert forall|i: int, j: int| 0 <= i < j < rest.len() implies !name_less(rest[j].0, rest[i].0) by {
            assert(rest[i] == t[i + 1]);
            assert(rest[j] == t[j + 1]);
        }
        lemma_insert_by_name(rest, x);
        let q = insert_by_name(rest, x);
        assert(r == seq![t[0]] + q);
        assert(r.remove(0) =~= q);
        assert(t.remove(0) =~= rest);
        lemma_multiset_reinsert(r, 0);
        lemma_multiset_reinsert(t, 0);
        assert(r.to_multiset() =~= t.to_multiset().insert(x));
        assert forall|i: int| 0 <= i < r.len() implies ((#[trigger] r[i]) == x || t.contains(r[i])) by {
            if i > 0 {
                assert(r[i] == q[i - 1]);
                if q[i - 1] != x {
                    assert(rest.contains(q[i - 1]));
                    let k = choose|k: int| 0 <= k < rest.len() && rest[k] == q[i - 1];
                    assert(t[k + 1] == rest[k]);
                }
            } else {
                assert(t[0] == t[0]);
            }
        }
        assert forall|i: int, j: int| 0 <= i < j < r.len() implies !name_less(r[j].0, r[i].0) by {
            if i == 0 {
                assert(r[j] == q[j - 1]);
                if q[j - 1] == x {
                } else {
                    let k = choose|k: int| 0 <= k < rest.len() && rest[k] == q[j - 1];
                    assert(t[k + 1] == rest[k]);
                }
            } else {
                assert(r[i] == q[i - 1]);
                assert(r[j] == q[j - 1]);
            }
        }
    }
}

/// Sorting by name yields the same entries, in nondecreasing order of name.
pub proof fn sorted_by_name_sorts(s: Seq<(Seq<char>, Seq<char>)>)
    ensures
        is_sorted_by_name(sorted_by_name(s)),
        sorted_by_name(s).to_multiset() == s.to_multiset(),
    decreases s.len(),
{
    broadcast use vstd::seq_lib::group_to_multiset_ensures;

    if s.len() > 0 {
        sorted_by_name_sorts(s.drop_last());
        lemma_insert_by_name(sorted_by_name(s.drop_last()), s.last());
        assert(s.drop_last().push(s.last()) =~= s);
    }
}

// ---------------------------------------------------------------- buildpacks

/// The buildpacks of the metadata pass verification exactly when each one's API is
/// accepted.
pub proof fn buildpacks_pass_exactly_when_all_accepted(bps: Seq<crate::launch::RawBuildpack>)
    ensures
        crate::cli::first_rejected_buildpack(bps) is None <==> forall|i: int|
            0 <= i < bps.len() ==> crate::launch::accepted_buildpack_api(
                (#[trigger] bps[i]).api@,
            ) is Some,
    decreases bps.len(),
{
    if bps.len() > 0 {
        buildpacks_pass_exactly_when_all_accepted(bps.drop_first());
        if crate::cli::first_rejected_buildpack(bps) is None {
            assert forall|i: int| 0 <= i < bps.len() implies crate::launch::accepted_buildpack_api(
                (#[trigger] bps[i]).api@,
            ) is Some by {
                if i > 0 {
                    assert(bps[i] == bps.drop_first()[i - 1]);
                }
            }
        } else if forall|i: int|
            0 <= i < bps.len() ==> crate::launch::accepted_buildpack_api(
                (#[trigger] bps[i]).api@,
            ) is Some {
            assert(crate::launch::accepted_buildpack_api(bps[0].api@) is Some);
            assert forall|i: int| 0 <= i < bps.drop_first().len() implies crate::launch::accepted_buildpack_api(
                (#[trigger] bps.drop_first()[i]).api@,
            ) is Some by {
                assert(bps.drop_first()[i] == bps[i + 1]);
            }
        }
    }
}

// ---------------------------------------------------------------- shell

/// How the MSVC argument rules read the inside of a quoted argument, `pending` backslashes
/// not yet read: a run of backslashes followed by a quote yields half of them, and the
/// quote is literal when the run was odd and closes the argument when it was even (which
/// must then end the text); backslashes not followed by a quote are literal.
pub open spec fn msvc_read_quoted(s: Seq<char>, pending: nat) -> Option<Seq<char>>
    decreases s.len(),
{
    if s.len() == 0 {
        None
    } else if s[0] == '\\' {
        msvc_read_quoted(s.drop_first(), pending + 1)
    } else if s[0] == '"' {
        if pending % 2 == 0 {
            if s.len() == 1 {
                Some(crate::shell::repeat('\\', pending / 2))
            } else {
                None
            }
        } else {
            match msvc_read_quoted(s.drop_first(), 0) {
                Some(r) => Some(crate::shell::repeat('\\', pending / 2) + seq!['"'] + r),
                None => None,
            }
        }
    } else {
        match msvc_read_quoted(s.drop_first(), 0) {
            Some(r) => Some(crate::shell::repeat('\\', pending) + seq![s[0]] + r),
            None => None,
        }
    }
}

/// How the MSVC argument rules read one argument: a quoted one through
/// [`msvc_read_quoted`], an unquoted one without quotes or blanks as it stands.
pub open spec fn msvc_read_argument(a: Seq<char>) -> Option<Seq<char>> {
    if a.len() > 0 && a[0] == '"' {
        msvc_read_quoted(a.drop_first(), 0)
    } else if !a.contains('"') && !a.contains(' ') && !a.contains('\t') {
        Some(a)
    } else {
        None
    }
}

proof fn lemma_read_backslashes(k: nat, x: Seq<char>, q: nat)
    ensures
        msvc_read_quoted(crate::shell::repeat('\\', k) + x, q) == msvc_read_quoted(x, q + k),
    decreases k,
{
    if k > 0 {
        let s = crate::shell::repeat('\\', k) + x;
        assert(s[0] == '\\');
        assert(s.drop_first() =~= crate::shell::repeat('\\', (k - 1) as nat) + x);
        lemma_read_backslashes((k - 1) as nat, x, q + 1);
    } else {
        assert(crate::shell::repeat('\\', 0) + x =~= x);
    }
}

proof fn lemma_read_quoted_body(s: Seq<char>, p: nat)
    ensures
        msvc_read_quoted(crate::shell::msvc_quoted_body(s, p) + seq!['"'], 0) == Some(
            crate::shell::repeat('\\', p) + s,
        ),
    decreases s.len(),
{
    let body = crate::shell::msvc_quoted_body(s, p);
    if s.len() == 0 {
        lemma_read_backslashes(2 * p, seq!['"'], 0);
        assert(body + seq!['"'] == crate::shell::repeat('\\', 2 * p) + seq!['"']);
        assert((2 * p) / 2 == p) by (nonlinear_arith);
        assert((2 * p) % 2 == 0) by (nonlinear_arith);
        assert(crate::shell::repeat('\\', p) + s =~= crate::shell::repeat('\\', p));
        assert(msvc_read_quoted(seq!['"'], 2 * p) == Some(crate::shell::repeat('\\', p)));
    } else if s[0] == '\\' {
        lemma_read_quoted_body(s.drop_first(), p + 1);
        assert(crate::shell::repeat('\\', p + 1) + s.drop_first() =~= crate::shell::repeat('\\', p)
            + s);
    } else if s[0] == '"' {
        let rest = crate::shell::msvc_quoted_body(s.drop_first(), 0);
        lemma_read_quoted_body(s.drop_first(), 0);
        let x = seq!['\\', '"'] + rest + seq!['"'];
        assert(body + seq!['"'] =~= crate::shell::repeat('\\', 2 * p) + x);
        lemma_read_backslashes(2 * p, x, 0);
        assert(x[0] == '\\');
        assert(x.drop_first() =~= seq!['"'] + rest + seq!['"']);
        let y = seq!['"'] + rest + seq!['"'];
        assert(y[0] == '"');
        assert(y.drop_first() =~= rest + seq!['"']);
        assert((2 * p + 1) / 2 == p) by (nonlinear_arith);
        assert((2 * p + 1) % 2 == 1) by (nonlinear_arith);
        assert(crate::shell::repeat('\\', 0) + s.drop_first() =~= s.drop_first());
        assert(msvc_read_quoted(y, 2 * p + 1) == Some(crate::shell::repeat('\\', p) + seq!['"'] + s.drop_first()));
        assert(msvc_read_quoted(x, 2 * p) == msvc_read_quoted(y, 2 * p + 1));
        assert(crate::shell::repeat('\\', p) + seq!['"'] + s.drop_first() =~= crate::shell::repeat(
            '\\',
            p,
        ) + s);
    } else {
        let rest = crate::shell::msvc_quoted_body(s.drop_first(), 0);
        lemma_read_quoted_body(s.drop_first(), 0);
        let x = seq![s[0]] + rest + seq!['"'];
        assert(body + seq!['"'] =~= crate::shell::repeat('\\', p) + x);
        lemma_read_backslashes(p, x, 0);
        assert(x[0] == s[0]);
        assert(x.drop_first() =~= rest + seq!['"']);
        assert(crate::shell::repeat('\\', 0) + s.drop_first() =~= s.drop_first());
        assert(msvc_read_quoted(x, p) == Some(crate::shell::repeat('\\', p) + seq![s[0]] + s.drop_first()));
        assert(crate::shell::repeat('\\', p) + seq![s[0]] + s.drop_first() =~= crate::shell::repeat(
            '\\',
            p,
        ) + s);
    }
}

/// An argument escaped by `escape_msvc_arg` reads back as itself under the MSVC argument
/// rules.
pub proof fn escaped_argument_reads_back(s: Seq<char>)
    ensures
        msvc_read_argument(crate::shell::msvc_escaped(s)) == Some(s),
{
    let e = crate::shell::msvc_escaped(s);
    if s.len() == 0 {
        reveal_strlit("\"\"");
        assert(e =~= seq!['"', '"']);
        assert(e.drop_first() =~= seq!['"']);
        assert(crate::shell::repeat('\\', 0) =~= s);
    } else if !crate::shell::needs_quoting(s) {
        assert(!s.contains('"')) by {
            if s.contains('"') {
                let k = choose|k: int| 0 <= k < s.len() && s[k] == '"';
                assert(crate::shell::is_quote_trigger(s[k]));
            }
        }
        assert(!s.contains(' ')) by {
            if s.contains(' ') {
                let k = choose|k: int| 0 <= k < s.len() && s[k] == ' ';
                assert(crate::shell::is_quote_trigger(s[k]));
            }
        }
        assert(!s.contains('\t')) by {
            if s.contains('\t') {
                let k = choose|k: int| 0 <= k < s.len() && s[k] == '\t';
                assert(crate::shell::is_quote_trigger(s[k]));
            }
        }
        if s[0] == '"' {
            assert(crate::shell::is_quote_trigger(s[0]));
        }
    } else {
        lemma_read_quoted_body(s, 0);
        assert(e.drop_first() =~= crate::shell::msvc_quoted_body(s, 0) + seq!['"']);
        assert(crate::shell::repeat('\\', 0) + s =~= s);
    }
}

/// Evaluating zero tokens is written as evaluating the single command token.
pub proof fn no_tokens_reads_as_one() 
    ensures
        crate::shell::bash_tokens_command(0) == crate::shell::bash_tokens_command(1),
{
}

// ---------------------------------------------------------------- what the operations are for

/// Under Platform API 0.15 or later, a metadata process that lists execution environments
/// is skipped exactly when none of them, at any position, is `*` or the active one; under
/// older Platform APIs, or without a list or with an empty one, it is never skipped.
pub proof fn eligibility_looks_at_every_listed_environment(
    raw: crate::launch::RawProcess,
    bps: Seq<crate::launch::RawBuildpack>,
    platform_api: Version,
    exec_env: Seq<char>,
    user: Seq<Seq<char>>,
    r: Result<Option<crate::launch::ResolvedProcess>, crate::launch::ProcessSelectionError>,
)
    requires
        crate::launch::metadata_outcome(raw, bps, platform_api, exec_env, user, r),
    ensures
        (r == Ok::<
            Option<crate::launch::ResolvedProcess>,
            crate::launch::ProcessSelectionError,
        >(None)) <==> (!(platform_api.major == 0 && platform_api.minor < 15) && (
        raw.exec_env matches Some(envs) && envs@.len() > 0 && (forall|i: int|
            0 <= i < envs@.len() ==> (#[trigger] envs@[i])@ != "*"@ && envs@[i]@ != exec_env))),
{
    if let Some(envs) = raw.exec_env {
        let v = crate::text::string_views(envs@);
        assert(forall|i: int| 0 <= i < envs@.len() ==> v[i] == (#[trigger] envs@[i])@);
        if v.contains("*"@) {
            let k = choose|k: int| 0 <= k < v.len() && v[k] == "*"@;
            assert(envs@[k]@ == "*"@);
        }
        if v.contains(exec_env) {
            let k = choose|k: int| 0 <= k < v.len() && v[k] == exec_env;
            assert(envs@[k]@ == exec_env);
        }
        if (forall|i: int|
            0 <= i < envs@.len() ==> (#[trigger] envs@[i])@ != "*"@ && envs@[i]@ != exec_env) {
            assert(!v.contains("*"@));
            assert(!v.contains(exec_env));
        }
    }
}

/// The predicate of the entries a cleaned search path keeps.
pub open spec fn not_excluded(excluded: Seq<Seq<char>>) -> spec_fn(Seq<char>) -> bool {
    |p: Seq<char>| !is_excluded_path(p, excluded)
}

proof fn lemma_kept_is_filter(parts: Seq<Seq<char>>, excluded: Seq<Seq<char>>)
    ensures
        kept_entries(parts, excluded) == parts.filter(not_excluded(excluded)),
    decreases parts.len(),
{
    reveal(Seq::filter);
    if parts.len() > 0 {
        lemma_kept_is_filter(parts.drop_last(), excluded);
    }
}

/// Cleaning a search path keeps every entry that is not excluded, in order, and only
/// those: where some entry survives, the entries of the result are exactly the entries of
/// the original path that are not excluded; where none does, the result is empty.
pub proof fn cleaned_path_keeps_every_other_entry(v: Seq<char>, excluded: Seq<Seq<char>>)
    ensures
        split(v, ':').filter(not_excluded(excluded)).len() > 0 ==> split(
            cleaned_search_path(v, excluded),
            ':',
        ) == split(v, ':').filter(not_excluded(excluded)),
        split(v, ':').filter(not_excluded(excluded)).len() == 0 ==> cleaned_search_path(
            v,
            excluded,
        ).len() == 0,
{
    reveal_strlit(":");
    assert(":"@ == seq![':']);
    split_pieces_lack_separator(v, ':');
    lemma_kept_is_filter(split(v, ':'), excluded);
    let kept = kept_entries(split(v, ':'), excluded);
    lemma_kept_entries(split(v, ':'), excluded, ':');
    if kept.len() > 0 {
        join_split_roundtrip(kept, ':');
    }
}

/// A command given by the user resolves to a process whose command and arguments give the
/// command line back: after the leading `--` where the process is direct, which it is
/// exactly when the line starts with `--` and has more after it, and the whole line
/// otherwise. It has no process type and runs in the application directory; an empty
/// line is refused.
pub proof fn user_command_reads_back(
    cmd: Seq<Seq<char>>,
    app_dir: Seq<char>,
    r: Result<crate::launch::ResolvedProcess, crate::launch::ProcessSelectionError>,
)
    requires
        crate::launch::user_outcome(cmd, app_dir, r),
    ensures
        cmd.len() == 0 ==> r is Err,
        cmd.len() > 0 ==> (r matches Ok(p) && p.direct == (cmd.len() > 1 && cmd[0] == "--"@)
            && (if p.direct {
            seq!["--"@, p.command@]
        } else {
            seq![p.command@]
        }) + crate::text::string_views(p.args@) == cmd && p.proc_type@.len() == 0
            && p.working_directory@ == app_dir),
{
    if cmd.len() > 0 {
        let p = r->Ok_0;
        if cmd.len() > 1 && cmd[0] == "--"@ {
            assert(seq!["--"@, p.command@] + crate::text::string_views(p.args@) =~= cmd);
        } else {
            assert(seq![p.command@] + crate::text::string_views(p.args@) =~= cmd);
        }
    }
}

proof fn lemma_contains_left(a: Seq<StepView>, b: Seq<StepView>, x: StepView)
    requires
        a.contains(x),
    ensures
        (a + b).contains(x),
{
    let k = choose|k: int| 0 <= k < a.len() && a[k] == x;
    assert((a + b)[k] == x);
}

proof fn lemma_contains_right(a: Seq<StepView>, b: Seq<StepView>, x: StepView)
    requires
        b.contains(x),
    ensures
        (a + b).contains(x),
{
    let k = choose|k: int| 0 <= k < b.len() && b[k] == x;
    assert((a + b)[a.len() + k] == x);
}

proof fn lemma_sorted_names_contains(names: Seq<Seq<char>>, l: Seq<char>)
    requires
        names.contains(l),
    ensures
        crate::env::sorted_names(names).contains(l),
{
    broadcast use vstd::seq_lib::group_to_multiset_ensures;

    let pairs = names.map_values(|n: Seq<char>| (n, Seq::<char>::empty()));
    let k = choose|k: int| 0 <= k < names.len() && names[k] == l;
    assert(pairs[k] == (l, Seq::<char>::empty()));
    assert(pairs.contains((l, Seq::<char>::empty())));
    sorted_by_name_sorts(pairs);
    let sorted = sorted_by_name(pairs);
    assert(pairs.to_multiset().count((l, Seq::<char>::empty())) > 0);
    assert(sorted.contains((l, Seq::<char>::empty())));
    let j = choose|j: int| 0 <= j < sorted.len() && sorted[j] == (l, Seq::<char>::empty());
    let out = sorted.map_values(|p: (Seq<char>, Seq<char>)| p.0);
    assert(out[j] == l);
}

proof fn lemma_layers_steps_contains(
    phase: Phase,
    dir: Seq<char>,
    layers: Seq<Seq<char>>,
    t: Seq<char>,
    l: Seq<char>,
    x: StepView,
)
    requires
        layers.contains(l),
        layer_phase_steps(phase, crate::plan::slash(dir, l), t).contains(x),
    ensures
        layers_steps(phase, dir, layers, t).contains(x),
    decreases layers.len(),
{
    let pre = layers_steps(phase, dir, layers.drop_last(), t);
    let last = layer_phase_steps(phase, crate::plan::slash(dir, layers.last()), t);
    if layers.last() == l {
        lemma_contains_right(pre, last, x);
    } else {
        let k = choose|k: int| 0 <= k < layers.len() && layers[k] == l;
        assert(k != layers.len() - 1);
        assert(layers.drop_last()[k] == l);
        lemma_layers_steps_contains(phase, dir, layers.drop_last(), t, l, x);
        lemma_contains_left(pre, last, x);
    }
}

proof fn lemma_root_steps_contains(dir: Seq<char>, layers: Seq<Seq<char>>, l: Seq<char>)
    requires
        layers.contains(l),
    ensures
        root_steps(dir, layers).contains(StepView::AddRootDir(crate::plan::slash(dir, l))),
    decreases layers.len(),
{
    let head = seq![StepView::AddRootDir(crate::plan::slash(dir, layers.last()))];
    let x = StepView::AddRootDir(crate::plan::slash(dir, l));
    if layers.last() == l {
        assert(head[0] == x);
        lemma_contains_left(head, root_steps(dir, layers.drop_last()), x);
    } else {
        let k = choose|k: int| 0 <= k < layers.len() && layers[k] == l;
        assert(k != layers.len() - 1);
        assert(layers.drop_last()[k] == l);
        lemma_root_steps_contains(dir, layers.drop_last(), l);
        lemma_contains_right(head, root_steps(dir, layers.drop_last()), x);
    }
}

proof fn lemma_phase_steps_contains(
    phase: Phase,
    layers_dir: Seq<char>,
    bps: Seq<(Seq<char>, Seq<Seq<char>>)>,
    t: Seq<char>,
    i: int,
    x: StepView,
)
    requires
        0 <= i < bps.len(),
        buildpack_steps(
            phase,
            crate::plan::buildpack_dir(layers_dir, bps[i].0),
            bps[i].1,
            t,
        ).contains(x),
    ensures
        phase_steps(phase, layers_dir, bps, t).contains(x),
    decreases bps.len(),
{
    let pre = phase_steps(phase, layers_dir, bps.drop_last(), t);
    let last = buildpack_steps(
        phase,
        crate::plan::buildpack_dir(layers_dir, bps.last().0),
        bps.last().1,
        t,
    );
    if i == bps.len() - 1 {
        lemma_contains_right(pre, last, x);
    } else {
        assert(bps.drop_last()[i] == bps[i]);
        lemma_phase_steps_contains(phase, layers_dir, bps.drop_last(), t, i, x);
        lemma_contains_left(pre, last, x);
    }
}

/// The directory of layer `l` of buildpack `id`: `<layers_dir>/<id with / as _>/<l>`.
pub open spec fn layer_path(layers_dir: Seq<char>, id: Seq<char>, l: Seq<char>) -> Seq<char> {
    layers_dir + seq!['/'] + crate::cli::escaped_id(id) + seq!['/'] + l
}

/// Every layer of every buildpack takes part in the launch: its root directory is added,
/// its `env` and `env.launch` directories are applied and its `exec.d` programs run, and,
/// for a launch through the shell, its `profile.d` scripts are collected, whatever the
/// process type; a process type adds the `env.launch`, `exec.d` and `profile.d`
/// subdirectories named after it. A direct launch ends the sequence with `LaunchDirect`,
/// and a shell launch with the application's profile and `LaunchShell`.
pub proof fn plan_visits_every_layer(
    layers_dir: Seq<char>,
    bps: Seq<(Seq<char>, Seq<Seq<char>>)>,
    proc_type: Seq<char>,
    direct: bool,
    i: int,
    l: Seq<char>,
)
    requires
        0 <= i < bps.len(),
        bps[i].1.contains(l),
    ensures
        ({
            let plan = launch_plan_spec(layers_dir, bps, proc_type, direct);
            let layer = layer_path(layers_dir, bps[i].0, l);
            &&& plan.contains(StepView::AddRootDir(layer))
            &&& plan.contains(StepView::ApplyEnvDir(layer + seq!['/'] + "env"@))
            &&& plan.contains(StepView::ApplyEnvDir(layer + seq!['/'] + "env.launch"@))
            &&& plan.contains(StepView::RunExecD(layer + seq!['/'] + "exec.d"@))
            &&& !direct ==> plan.contains(
                StepView::CollectProfiles(layer + seq!['/'] + "profile.d"@),
            )
            &&& proc_type.len() > 0 ==> plan.contains(
                StepView::ApplyEnvDir(layer + seq!['/'] + "env.launch"@ + seq!['/'] + proc_type),
            )
            &&& proc_type.len() > 0 ==> plan.contains(
                StepView::RunExecD(layer + seq!['/'] + "exec.d"@ + seq!['/'] + proc_type),
            )
            &&& !direct && proc_type.len() > 0 ==> plan.contains(
                StepView::CollectProfiles(layer + seq!['/'] + "profile.d"@ + seq!['/'] + proc_type),
            )
            &&& direct ==> plan.last() == StepView::LaunchDirect
            &&& !direct ==> plan.len() >= 2 && plan[plan.len() - 2] == StepView::AddAppProfile
                && plan.last() == StepView::LaunchShell
        }),
{
    let plan = launch_plan_spec(layers_dir, bps, proc_type, direct);
    let dir = crate::plan::buildpack_dir(layers_dir, bps[i].0);
    let layer = crate::plan::slash(dir, l);
    assert(layer == layer_path(layers_dir, bps[i].0, l));
    let sorted = crate::env::sorted_names(bps[i].1);
    lemma_sorted_names_contains(bps[i].1, l);
    let env = phase_steps(Phase::Env, layers_dir, bps, proc_type);
    let exec = phase_steps(Phase::ExecD, layers_dir, bps, proc_type);
    let prof = phase_steps(Phase::Profile, layers_dir, bps, proc_type);
    let tail = if direct {
        seq![StepView::LaunchDirect]
    } else {
        prof + seq![StepView::AddAppProfile, StepView::LaunchShell]
    };
    assert(plan == env + exec + tail);
    // root directory
    lemma_root_steps_contains(dir, sorted, l);
    lemma_contains_left(root_steps(dir, sorted), layers_steps(Phase::Env, dir, sorted, proc_type),
        StepView::AddRootDir(layer));
    lemma_phase_steps_contains(Phase::Env, layers_dir, bps, proc_type, i, StepView::AddRootDir(layer));
    lemma_contains_left(env, exec, StepView::AddRootDir(layer));
    lemma_contains_left(env + exec, tail, StepView::AddRootDir(layer));
    // env directories
    let es = layer_phase_steps(Phase::Env, layer, proc_type);
    let e1 = StepView::ApplyEnvDir(crate::plan::slash(layer, "env"@));
    let e2 = StepView::ApplyEnvDir(crate::plan::slash(layer, "env.launch"@));
    let e3 = StepView::ApplyEnvDir(crate::plan::slash(crate::plan::slash(layer, "env.launch"@), proc_type));
    assert(es[0] == e1);
    assert(es[1] == e2);
    assert(es.contains(e1));
    assert(es.contains(e2));
    if proc_type.len() > 0 {
        assert(es[2] == e3);
        assert(es.contains(e3));
    }
    assert forall|x: StepView| #[trigger] es.contains(x) implies plan.contains(x) by {
        lemma_layers_steps_contains(Phase::Env, dir, sorted, proc_type, l, x);
        lemma_contains_right(root_steps(dir, sorted), layers_steps(Phase::Env, dir, sorted, proc_type), x);
        lemma_phase_steps_contains(Phase::Env, layers_dir, bps, proc_type, i, x);
        lemma_contains_left(env, exec, x);
        lemma_contains_left(env + exec, tail, x);
    }
    // exec.d
    let xs = layer_phase_steps(Phase::ExecD, layer, proc_type);
    let x1 = StepView::RunExecD(crate::plan::slash(layer, "exec.d"@));
    let x2 = StepView::RunExecD(crate::plan::slash(crate::plan::slash(layer, "exec.d"@), proc_type));
    assert(xs[0] == x1);
    assert(xs.contains(x1));
    if proc_type.len() > 0 {
        assert(xs[1] == x2);
        assert(xs.contains(x2));
    }
    assert forall|x: StepView| #[trigger] xs.contains(x) implies plan.contains(x) by {
        lemma_layers_steps_contains(Phase::ExecD, dir, sorted, proc_type, l, x);
        lemma_phase_steps_contains(Phase::ExecD, layers_dir, bps, proc_type, i, x);
        lemma_contains_right(env, exec, x);
        lemma_contains_left(env + exec, tail, x);
    }
    // profile.d
    if !direct {
        let ps = layer_phase_steps(Phase::Profile, layer, proc_type);
        let p1 = StepView::CollectProfiles(crate::plan::slash(layer, "profile.d"@));
        let p2 = StepView::CollectProfiles(
            crate::plan::slash(crate::plan::slash(layer, "profile.d"@), proc_type),
        );
        assert(ps[0] == p1);
        assert(ps.contains(p1));
        if proc_type.len() > 0 {
            assert(ps[1] == p2);
            assert(ps.contains(p2));
        }
        assert forall|x: StepView| #[trigger] ps.contains(x) implies plan.contains(x) by {
            lemma_layers_steps_contains(Phase::Profile, dir, sorted, proc_type, l, x);
            lemma_phase_steps_contains(Phase::Profile, layers_dir, bps, proc_type, i, x);
            lemma_contains_left(prof, seq![StepView::AddAppProfile, StepView::LaunchShell], x);
            lemma_contains_right(env + exec, tail, x);
        }
    }
}

/// Whether words `3k` to `3k + 2` of a command line call the profile `p`: `call`, a word
/// that reads back as `p` under the MSVC argument rules, and `&&`.
pub open spec fn calls_profile(w: Seq<Seq<char>>, k: int, p: Seq<char>) -> bool {
    &&& w[3 * k] == "call"@
    &&& msvc_read_argument(w[3 * k + 1]) == Some(p)
    &&& w[3 * k + 2] == "&&"@
}

proof fn lemma_profile_call_words(profiles: Seq<Seq<char>>)
    ensures
        crate::shell::profile_call_words(profiles).len() == 3 * profiles.len(),
        forall|k: int|
            0 <= k < profiles.len() ==> calls_profile(
                crate::shell::profile_call_words(profiles),
                k,
                #[trigger] profiles[k],
            ),
    decreases profiles.len(),
{
    if profiles.len() > 0 {
        let pre = profiles.drop_last();
        lemma_profile_call_words(pre);
        escaped_argument_reads_back(profiles.last());
        let w = crate::shell::profile_call_words(profiles);
        let wp = crate::shell::profile_call_words(pre);
        let tail = seq!["call"@, crate::shell::msvc_escaped(profiles.last()), "&&"@];
        assert(w == wp + tail);
        assert forall|k: int| 0 <= k < profiles.len() implies calls_profile(
            w,
            k,
            #[trigger] profiles[k],
        ) by {
            if k < pre.len() {
                assert(pre[k] == profiles[k]);
                assert(calls_profile(wp, k, pre[k]));
                assert(w[3 * k] == wp[3 * k]);
                assert(w[3 * k + 1] == wp[3 * k + 1]);
                assert(w[3 * k + 2] == wp[3 * k + 2]);
            } else {
                assert(k == pre.len());
                assert(profiles[k] == profiles.last());
                assert(w[3 * k] == tail[0]);
                assert(w[3 * k + 1] == tail[1]);
                assert(w[3 * k + 2] == tail[2]);
            }
        }
    }
}

/// Each word of the `cmd.exe` command line that carries data reads back, under the MSVC
/// argument rules, as exactly its text: for each profile `call <profile> &&`, then
/// `cd /d <working directory> &&`, then the command and each argument, in this order and
/// with nothing else between them.
pub proof fn cmd_words_read_back(
    profiles: Seq<Seq<char>>,
    working_directory: Seq<char>,
    command: Seq<char>,
    args: Seq<Seq<char>>,
)
    ensures
        ({
            let w = crate::shell::cmd_words(profiles, working_directory, command, args);
            let n: int = 3 * profiles.len() as int;
            &&& w.len() == n + 5 + args.len()
            &&& forall|k: int| 0 <= k < profiles.len() ==> calls_profile(w, k, #[trigger] profiles[k])
            &&& w[n] == "cd"@
            &&& w[n + 1] == "/d"@
            &&& msvc_read_argument(w[n + 2]) == Some(working_directory)
            &&& w[n + 3] == "&&"@
            &&& msvc_read_argument(w[n + 4]) == Some(command)
            &&& forall|j: int|
                0 <= j < args.len() ==> msvc_read_argument(w[n + 5 + j]) == Some(#[trigger] args[j])
        }),
{
    lemma_profile_call_words(profiles);
    escaped_argument_reads_back(working_directory);
    escaped_argument_reads_back(command);
    let pw = crate::shell::profile_call_words(profiles);
    let mid = seq![
        "cd"@,
        "/d"@,
        crate::shell::msvc_escaped(working_directory),
        "&&"@,
        crate::shell::msvc_escaped(command),
    ];
    let ea = crate::shell::escaped_all(args);
    let w = crate::shell::cmd_words(profiles, working_directory, command, args);
    let n: int = 3 * profiles.len() as int;
    assert(w == pw + mid + ea);
    assert forall|k: int| 0 <= k < profiles.len() implies calls_profile(w, k, #[trigger] profiles[k]) by {
        assert(calls_profile(pw, k, profiles[k]));
        assert(w[3 * k] == pw[3 * k]);
        assert(w[3 * k + 1] == pw[3 * k + 1]);
        assert(w[3 * k + 2] == pw[3 * k + 2]);
    }
    assert(w[n] == mid[0]);
    assert(w[n + 1] == mid[1]);
    assert(w[n + 2] == mid[2]);
    assert(w[n + 3] == mid[3]);
    assert(w[n + 4] == mid[4]);
    assert forall|j: int| 0 <= j < args.len() implies msvc_read_argument(w[n + 5 + j]) == Some(
        #[trigger] args[j],
    ) by {
        assert(w[n + 5 + j] == ea[j]);
        escaped_argument_reads_back(args[j]);
    }
}

proof fn lemma_supported_ranges(v: Version)
    ensures
        spec_any_superset(v, spec_supported_platform_apis()) <==> (v.major == 0 && 7 <= v.minor
            <= 15),
        spec_any_superset(v, spec_supported_buildpack_apis()) <==> (v.major == 0 && 7 <= v.minor
            <= 12),
{
    let p = spec_supported_platform_apis();
    let b = spec_supported_buildpack_apis();
    assert(forall|i: int| 0 <= i < p.len() ==> (#[trigger] p[i]).major == 0 && p[i].minor == i + 7)
        by {
        assert(p[0].minor == 7 && p[1].minor == 8 && p[2].minor == 9 && p[3].minor == 10);
        assert(p[4].minor == 11 && p[5].minor == 12 && p[6].minor == 13 && p[7].minor == 14);
        assert(p[8].minor == 15);
    }
    assert(forall|i: int| 0 <= i < b.len() ==> (#[trigger] b[i]).major == 0 && b[i].minor == i + 7)
        by {
        assert(b[0].minor == 7 && b[1].minor == 8 && b[2].minor == 9 && b[3].minor == 10);
        assert(b[4].minor == 11 && b[5].minor == 12);
    }
    if v.major == 0 && 7 <= v.minor <= 15 {
        let i = v.minor - 7;
        assert(p[i].spec_is_superset_of(v));
    }
    if v.major == 0 && 7 <= v.minor <= 12 {
        let i = v.minor - 7;
        assert(b[i].spec_is_superset_of(v));
    }
}

/// The Platform API versions the launcher accepts are exactly 0.7 to 0.15: a version
/// written as `MAJOR.MINOR` verifies to itself when it is one of them, and is rejected as
/// incompatible otherwise.
pub proof fn platform_api_accepts_exactly_supported_range(
    v: Version,
    r: Result<Version, crate::api::platform::PlatformApiError>,
)
    requires
        platform_api_outcome(version_text(v), r),
    ensures
        (v.major == 0 && 7 <= v.minor <= 15) ==> r == Ok::<
            Version,
            crate::api::platform::PlatformApiError,
        >(v),
        !(v.major == 0 && 7 <= v.minor <= 15) ==> (r matches Err(
            crate::api::platform::PlatformApiError::Incompatible(t),
        ) && t@ == version_text(v)),
{
    version_text_parses_back(v);
    lemma_trim_version_text(v);
    lemma_supported_ranges(v);
    lemma_decimal(v.major as nat);
    assert(version_text(v).len() > 0);
}

/// The Buildpack API versions the launcher accepts are exactly 0.7 to 0.12: a version
/// written as `MAJOR.MINOR` verifies to itself when it is one of them, and is rejected as
/// incompatible otherwise.
pub proof fn buildpack_api_accepts_exactly_supported_range(
    bp_id: Seq<char>,
    v: Version,
    r: Result<Version, crate::api::buildpack::BuildpackApiError>,
)
    requires
        buildpack_api_outcome(bp_id, version_text(v), r),
    ensures
        (v.major == 0 && 7 <= v.minor <= 12) ==> r == Ok::<
            Version,
            crate::api::buildpack::BuildpackApiError,
        >(v),
        !(v.major == 0 && 7 <= v.minor <= 12) ==> (r matches Err(
            crate::api::buildpack::BuildpackApiError::Incompatible { bp_id: b, version: t },
        ) && b@ == bp_id && t@ == version_text(v)),
{
    version_text_parses_back(v);
    lemma_trim_version_text(v);
    lemma_supported_ranges(v);
}

/// A resolved metadata process runs the first entry of its command, with the process's
/// type, directness and working directory (empty where it names none). Without user
/// arguments it runs with the rest of its command and then its default arguments; user
/// arguments always come last. From Platform API 0.10 on, user arguments follow the rest
/// of a multi-entry command and replace the defaults; for a single-entry command they
/// replace the defaults where the process names no buildpack, and are appended to them
/// where it names a buildpack that is not listed.
pub proof fn metadata_process_runs_its_command(
    raw: crate::launch::RawProcess,
    bps: Seq<crate::launch::RawBuildpack>,
    platform_api: Version,
    exec_env: Seq<char>,
    user: Seq<Seq<char>>,
    p: crate::launch::ResolvedProcess,
)
    requires
        crate::launch::metadata_outcome(
            raw,
            bps,
            platform_api,
            exec_env,
            user,
            Ok(Some(p)),
        ),
    ensures
        ({
            let entries = crate::launch::command_entries(raw.command);
            let args = crate::text::string_views(p.args@);
            let from_0_10 = !(platform_api.major == 0 && platform_api.minor < 10);
            &&& entries.len() > 0
            &&& p.command@ == entries[0]
            &&& p.proc_type@ == raw.proc_type@
            &&& p.direct == raw.direct
            &&& p.working_directory@ == match raw.working_dir {
                Some(w) => w@,
                None => Seq::<char>::empty(),
            }
            &&& user.len() == 0 ==> args == entries.skip(1) + crate::launch::default_args(raw)
            &&& user.len() > 0 ==> args.len() >= user.len() && args.skip(args.len() - user.len())
                == user
            &&& from_0_10 && entries.len() > 1 ==> (user.len() > 0 ==> args == entries.skip(1)
                + user)
            &&& from_0_10 && entries.len() == 1 && user.len() > 0 && raw.buildpack_id@.len() == 0
                ==> args == user
            &&& from_0_10 && entries.len() == 1 && user.len() > 0 && raw.buildpack_id@.len() > 0
                && crate::launch::find_buildpack(bps, raw.buildpack_id@) is None ==> args
                == crate::launch::default_args(raw) + user
        }),
{
    let entries = crate::launch::command_entries(raw.command);
    let defaults = crate::launch::default_args(raw);
    let args = crate::text::string_views(p.args@);
    assert(p@.args == args);
    if entries.len() == 1 {
        assert(entries.skip(1) =~= Seq::<Seq<char>>::empty());
        assert(entries.skip(1) + defaults =~= defaults);
        assert(entries.skip(1) + defaults + user =~= defaults + user);
    }
    if user.len() == 0 {
        assert(entries.skip(1) + defaults + user =~= entries.skip(1) + defaults);
    } else {
        assert((entries.skip(1) + defaults + user).skip(
            (entries.skip(1) + defaults + user).len() - user.len(),
        ) =~= user);
        assert((entries.skip(1) + user).skip((entries.skip(1) + user).len() - user.len()) =~= user);
        assert((defaults + user).skip((defaults + user).len() - user.len()) =~= user);
        assert(user.skip(0) =~= user);
    }
}

proof fn lemma_find_eligible_some(
    procs: Seq<crate::launch::RawProcess>,
    name: Seq<char>,
    platform_api: Version,
    exec_env: Seq<char>,
)
    ensures
        crate::launch::find_eligible(procs, name, platform_api, exec_env) matches Some(i) ==> 0 <= i
            < procs.len() && procs[i].proc_type@ == name && !crate::launch::ineligible(
            procs[i],
            platform_api,
            exec_env,
        ),
    decreases procs.len(),
{
    if procs.len() > 0 {
        lemma_find_eligible_some(procs.drop_first(), name, platform_api, exec_env);
        match crate::launch::find_eligible(procs.drop_first(), name, platform_api, exec_env) {
            Some(k) => {
                assert(procs.drop_first()[k] == procs[k + 1]);
            },
            None => {},
        }
    }
}

proof fn lemma_named_outcome(
    metadata: crate::launch::RawMetadata,
    name: Seq<char>,
    user: Seq<Seq<char>>,
    platform_api: Version,
    exec_env: Seq<char>,
    app_dir: Seq<char>,
    r: Result<crate::launch::ResolvedProcess, crate::launch::ProcessSelectionError>,
)
    requires
        crate::launch::named_outcome(metadata, name, user, platform_api, exec_env, app_dir, r),
    ensures
        r matches Ok(p) ==> p.proc_type@ == name && (p.working_directory@.len() == 0 ==> app_dir.len()
            == 0),
{
    lemma_find_eligible_some(metadata.processes@, name, platform_api, exec_env);
}

/// Selection runs the process type the launcher was invoked as, where the metadata has
/// one; otherwise, with no further arguments, it is refused; otherwise it runs the process
/// type the first further argument names, where the metadata has one; otherwise the
/// further arguments are a user command, without a process type, that gives the command
/// line back. Whatever runs has a working directory unless the application directory is
/// empty.
pub proof fn selection_runs_the_named_type(
    args: Seq<Seq<char>>,
    metadata: crate::launch::RawMetadata,
    platform_api: Version,
    exec_env: Seq<char>,
    app_dir: Seq<char>,
    r: Result<crate::launch::ResolvedProcess, crate::launch::ProcessSelectionError>,
)
    requires
        crate::launch::select_outcome(args, metadata, platform_api, exec_env, app_dir, r),
    ensures
        ({
            let name = crate::launch::invoked_name(args);
            let user = crate::launch::arguments_after_argv0(args);
            let procs = metadata.processes@;
            &&& crate::launch::has_process(procs, name) ==> (r matches Ok(p) ==> p.proc_type@
                == name)
            &&& !crate::launch::has_process(procs, name) && user.len() == 0 ==> r == Err::<
                crate::launch::ResolvedProcess,
                crate::launch::ProcessSelectionError,
            >(crate::launch::ProcessSelectionError::NoCommandAndNoDefault)
            &&& !crate::launch::has_process(procs, name) && user.len() > 0
                && crate::launch::has_process(procs, user[0]) ==> (r matches Ok(p) ==> p.proc_type@
                == user[0])
            &&& !crate::launch::has_process(procs, name) && user.len() > 0
                && !crate::launch::has_process(procs, user[0]) ==> (r matches Ok(p)
                && p.proc_type@.len() == 0 && (if p.direct {
                seq!["--"@, p.command@]
            } else {
                seq![p.command@]
            }) + crate::text::string_views(p.args@) == user)
            &&& r matches Ok(p) ==> (p.working_directory@.len() == 0 ==> app_dir.len() == 0)
        }),
{
    let name = crate::launch::invoked_name(args);
    let user = crate::launch::arguments_after_argv0(args);
    let procs = metadata.processes@;
    if crate::launch::has_process(procs, name) {
        lemma_named_outcome(metadata, name, user, platform_api, exec_env, app_dir, r);
    } else if user.len() > 0 {
        if crate::launch::has_process(procs, user[0]) {
            lemma_named_outcome(
                metadata,
                user[0],
                user.skip(1),
                platform_api,
                exec_env,
                app_dir,
                r,
            );
        } else {
            user_command_reads_back(user, app_dir, r);
        }
    }
}

/// Whether two environments agree on a variable: both lack it, or both hold the same value.
pub open spec fn agree_on(a: Map<Seq<char>, Seq<char>>, b: Map<Seq<char>, Seq<char>>, var: Seq<char>) -> bool {
    &&& a.contains_key(var) == b.contains_key(var)
    &&& a.contains_key(var) ==> a[var] == b[var]
}

proof fn lemma_file_respects_agreement(
    a: Map<Seq<char>, Seq<char>>,
    b: Map<Seq<char>, Seq<char>>,
    f: (Seq<char>, Seq<char>),
    entries: Seq<(Seq<char>, Seq<char>)>,
    var: Seq<char>,
)
    requires
        agree_on(a, b, var),
    ensures
        agree_on(apply_env_file(a, f.0, f.1, entries), apply_env_file(b, f.0, f.1, entries), var),
{
    if file_variable(f.0) != var {
        env_file_changes_only_its_variable(a, f.0, f.1, entries, var);
        env_file_changes_only_its_variable(b, f.0, f.1, entries, var);
    }
}

proof fn lemma_single_file(
    m: Map<Seq<char>, Seq<char>>,
    files: Seq<(Seq<char>, Seq<char>)>,
    entries: Seq<(Seq<char>, Seq<char>)>,
    var: Seq<char>,
    target: (Seq<char>, Seq<char>),
)
    requires
        files.to_multiset().count(target) == 1,
        forall|k: int|
            0 <= k < files.len() ==> #[trigger] files[k] == target || leaves_variable(files[k], var),
    ensures
        agree_on(
            apply_env_files(m, files, entries),
            apply_env_file(m, target.0, target.1, entries),
            var,
        ),
    decreases files.len(),
{
    broadcast use vstd::seq_lib::group_to_multiset_ensures;

    let pre = files.drop_last();
    let f = files.last();
    assert(pre.push(f) =~= files);
    assert(files[files.len() - 1] == f);
    if f == target {
        assert(pre.to_multiset().count(target) == 0);
        assert forall|k: int| 0 <= k < pre.len() implies leaves_variable(#[trigger] pre[k], var) by {
            assert(files[k] == pre[k]);
            if pre[k] == target {
                assert(pre.contains(target));
            }
        }
        lemma_files_leave_variable(m, pre, entries, var);
        lemma_file_respects_agreement(apply_env_files(m, pre, entries), m, f, entries, var);
    } else {
        assert(pre.to_multiset().count(target) == 1);
        assert forall|k: int|
            0 <= k < pre.len() implies #[trigger] pre[k] == target || leaves_variable(pre[k], var) by {
            assert(files[k] == pre[k]);
        }
        lemma_single_file(m, pre, entries, var, target);
        let prev = apply_env_files(m, pre, entries);
        assert(leaves_variable(f, var));
        if file_variable(f.0) != var {
            env_file_changes_only_its_variable(prev, f.0, f.1, entries, var);
        } else {
            lemma_delim_is_ignored(f.0);
            lemma_ignored_file(prev, f.0, f.1, entries);
        }
    }
}

/// A file of an env directory that is the only one for its variable (apart from the
/// variable's `.delim` file) decides the variable by its suffix, whatever order the
/// directory's files come in: no suffix or `.override` sets it to the file's contents;
/// `.default` keeps a value that is set and sets the contents otherwise; `.append` and
/// `.prepend` put the contents after or before a value that is set and not empty, with the
/// variable's delimiter between them; and any other suffix leaves it as it was.
pub proof fn env_file_decides_its_variable(
    m: Map<Seq<char>, Seq<char>>,
    entries: Seq<(Seq<char>, Seq<char>)>,
    i: int,
)
    requires
        0 <= i < entries.len(),
        forall|j: int|
            0 <= j < entries.len() && j != i ==> leaves_variable(
                #[trigger] entries[j],
                file_variable(entries[i].0),
            ),
        !(file_suffix(entries[i].0) == Some("delim"@)),
    ensures
        ({
            let var = file_variable(entries[i].0);
            let x = entries[i].1;
            let sfx = file_suffix(entries[i].0);
            let out = apply_env_files(m, sorted_by_name(entries), entries);
            let d = crate::env::delimiter_of(entries, var);
            let set = m.contains_key(var) && m[var].len() > 0;
            &&& (sfx is None || sfx == Some("override"@)) ==> out.contains_key(var) && out[var] == x
            &&& sfx == Some("default"@) ==> out.contains_key(var) && out[var] == if m.contains_key(
                var,
            ) {
                m[var]
            } else {
                x
            }
            &&& sfx == Some("append"@) ==> out.contains_key(var) && out[var] == if set {
                m[var] + d + x
            } else {
                x
            }
            &&& sfx == Some("prepend"@) ==> out.contains_key(var) && out[var] == if set {
                x + d + m[var]
            } else {
                x
            }
            &&& ignored_file(entries[i].0) ==> agree_on(out, m, var)
        }),
{
    broadcast use vstd::seq_lib::group_to_multiset_ensures;

    let target = entries[i];
    let var = file_variable(target.0);
    lemma_suffix_words();
    assert(!leaves_variable(target, var));
    lemma_multiset_reinsert(entries, i);
    let rest = entries.remove(i);
    assert forall|k: int| 0 <= k < rest.len() implies #[trigger] rest[k] != target by {
        if k < i {
            assert(rest[k] == entries[k]);
        } else {
            assert(rest[k] == entries[k + 1]);
        }
    }
    assert(!rest.contains(target));
    assert(entries.to_multiset().count(target) == 1);
    let sorted = sorted_by_name(entries);
    sorted_by_name_sorts(entries);
    assert forall|k: int|
        0 <= k < sorted.len() implies #[trigger] sorted[k] == target || leaves_variable(
            sorted[k],
            var,
        ) by {
        assert(sorted.contains(sorted[k]));
        assert(entries.to_multiset().count(sorted[k]) > 0);
        assert(entries.contains(sorted[k]));
        let j = choose|j: int| 0 <= j < entries.len() && entries[j] == sorted[k];
        if j != i {
            assert(leaves_variable(entries[j], var));
        }
    }
    lemma_single_file(m, sorted, entries, var, target);
    if ignored_file(target.0) {
        lemma_ignored_file(m, target.0, target.1, entries);
    }
}

/// Setting what an `exec.d` program output sets each variable it names to the value of the
/// last pair that names it, and leaves every other variable as it was.
pub proof fn exec_d_output_sets_its_variables(
    m: Map<Seq<char>, Seq<char>>,
    pairs: Seq<(Seq<char>, Seq<char>)>,
    k: Seq<char>,
)
    ensures
        (forall|j: int| 0 <= j < pairs.len() ==> (#[trigger] pairs[j]).0 != k) ==> agree_on(
            crate::exec_d::insert_all(m, pairs),
            m,
            k,
        ),
        forall|j: int|
            0 <= j < pairs.len() && (#[trigger] pairs[j]).0 == k && (forall|l: int|
                j < l < pairs.len() ==> pairs[l].0 != k) ==> crate::exec_d::insert_all(
                m,
                pairs,
            ).contains_key(k) && crate::exec_d::insert_all(m, pairs)[k] == pairs[j].1,
    decreases pairs.len(),
{
    if pairs.len() > 0 {
        let pre = pairs.drop_last();
        exec_d_output_sets_its_variables(m, pre, k);
        assert forall|j: int|
            0 <= j < pairs.len() && (#[trigger] pairs[j]).0 == k && (forall|l: int|
                j < l < pairs.len() ==> pairs[l].0 != k) implies crate::exec_d::insert_all(
            m,
            pairs,
        ).contains_key(k) && crate::exec_d::insert_all(m, pairs)[k] == pairs[j].1 by {
            if j < pairs.len() - 1 {
                assert(pairs[pairs.len() - 1].0 != k);
                assert(pre[j] == pairs[j]);
                assert(forall|l: int| j < l < pre.len() ==> pre[l] == pairs[l]);
            }
        }
        if forall|j: int| 0 <= j < pairs.len() ==> (#[trigger] pairs[j]).0 != k {
            assert(pairs[pairs.len() - 1].0 != k);
            assert forall|j: int| 0 <= j < pre.len() implies (#[trigger] pre[j]).0 != k by {
                assert(pre[j] == pairs[j]);
            }
        }
    }
}

/// The launch environment's `PATH` is the host's `PATH` (the last value the host gives
/// it) with the excluded directories removed; it is set exactly where the host sets it.
pub proof fn launch_env_path_is_cleaned_host_path(
    host: Seq<(Seq<char>, Seq<char>)>,
    excluded: Seq<Seq<char>>,
)
    ensures
        sanitized(host, excluded).contains_key("PATH"@) <==> map_of(host).contains_key("PATH"@),
        map_of(host).contains_key("PATH"@) ==> sanitized(host, excluded)["PATH"@]
            == cleaned_search_path(map_of(host)["PATH"@], excluded),
{
    reveal_strlit("PATH");
    reveal_strlit("CNB_LAYERS_DIR");
    reveal_strlit("CNB_APP_DIR");
    reveal_strlit("CNB_PROCESS_TYPE");
    reveal_strlit("CNB_PLATFORM_API");
    reveal_strlit("CNB_DEPRECATION_MODE");
    assert("PATH"@.len() != "CNB_LAYERS_DIR"@.len());
    assert("PATH"@.len() != "CNB_APP_DIR"@.len());
    assert("PATH"@.len() != "CNB_PROCESS_TYPE"@.len());
    assert("PATH"@.len() != "CNB_PLATFORM_API"@.len());
    assert("PATH"@.len() != "CNB_DEPRECATION_MODE"@.len());
    assert(!is_launcher_variable("PATH"@));
    lemma_without_launcher_variables(host, "PATH"@);
}

} // verus!
