use vstd::prelude::*;
use vstd::string::StringExecFns;
use crate::error::{config_error, Error};
use crate::text::{chars_of, owned, replace, replace_all, string_of_range};

verus! {

/// Characters that may begin a variable name: `A`-`Z` and `_`.
pub open spec fn var_start(c: char) -> bool {
    ('A' <= c && c <= 'Z') || c == '_'
}

/// Characters that may continue a variable name: `A`-`Z`, `0`-`9` and `_`.
pub open spec fn var_char(c: char) -> bool {
    ('A' <= c && c <= 'Z') || ('0' <= c && c <= '9') || c == '_'
}

/// Length of the run of variable-name characters of `s` that starts at `i`.
pub open spec fn var_run(s: Seq<char>, i: int) -> nat
    decreases s.len() - i,
{
    if 0 <= i < s.len() && var_char(s[i]) {
        1 + var_run(s, i + 1)
    } else {
        0
    }
}

/// Length of the placeholder `${NAME}` that starts at `i`, or zero; `NAME` begins with an
/// uppercase letter or `_` and goes on with uppercase letters, digits and `_`.
pub open spec fn placeholder_len(s: Seq<char>, i: int) -> nat {
    if 0 <= i && i + 2 < s.len() && s[i] == '$' && s[i + 1] == '{' && var_start(s[i + 2])
        && i + 2 + var_run(s, i + 2) < s.len() && s[i + 2 + var_run(s, i + 2)] == '}' {
        var_run(s, i + 2) + 3
    } else {
        0
    }
}

/// The placeholders of `s` from position `i`, left to right, without overlap: each as its full
/// text and the variable name.
pub open spec fn placeholders_from(s: Seq<char>, i: int) -> Seq<(Seq<char>, Seq<char>)>
    decreases s.len() - i,
{
    if i < 0 || i >= s.len() {
        Seq::empty()
    } else if placeholder_len(s, i) > 0 && i + placeholder_len(s, i) <= s.len() {
        seq![(s.subrange(i, i + placeholder_len(s, i)), s.subrange(i + 2, i + placeholder_len(s, i) - 1))]
            + placeholders_from(s, i + placeholder_len(s, i))
    } else {
        placeholders_from(s, i + 1)
    }
}

/// A `${NAME}` placeholder of a configuration text.
pub struct Placeholder {
    /// The whole placeholder, `${NAME}`.
    pub full: String,
    /// The variable name.
    pub name: String,
}

/// Views of a list of placeholders.
pub open spec fn placeholder_views(p: Seq<Placeholder>) -> Seq<(Seq<char>, Seq<char>)> {
    p.map_values(|x: Placeholder| (x.full@, x.name@))
}

/// Message for a placeholder whose variable is not set.
pub open spec fn unset_message(name: Seq<char>, full: Seq<char>) -> Seq<char> {
    "environment variable `"@ + name + "` is not set (needed for `"@ + full
        + "`). Set it in your shell or in a `.env` file in the project root."@
}

/// `out` with the placeholders from `k` on replaced in order by their values; the message of
/// the first placeholder without a value instead, if there is one.
pub open spec fn substitute_from(
    out: Seq<char>,
    found: Seq<(Seq<char>, Seq<char>)>,
    values: Seq<Option<Seq<char>>>,
    k: int,
) -> Result<Seq<char>, Seq<char>>
    decreases found.len() - k,
{
    if k < 0 || k >= found.len() || k >= values.len() {
        Ok(out)
    } else {
        match values[k] {
            None => Err(unset_message(found[k].1, found[k].0)),
            Some(v) => substitute_from(replace_all(out, found[k].0, v), found, values, k + 1),
        }
    }
}

proof fn lemma_var_run_exact(s: Seq<char>, i: int, e: int)
    requires
        0 <= i <= e <= s.len(),
        forall|j: int| i <= j < e ==> var_char(#[trigger] s[j]),
        e < s.len() ==> !var_char(s[e]),
    ensures
        var_run(s, i) == e - i,
    decreases e - i,
{
    if i < e {
        lemma_var_run_exact(s, i + 1, e);
    }
}

/// The `${NAME}` placeholders of `input`, left to right.
pub fn find_placeholders(input: &str) -> (found: Vec<Placeholder>)
    ensures
        placeholder_views(found@) == placeholders_from(input@, 0),
{
    let v = chars_of(input);
    let ghost s = input@;
    let n = v.len();
    let mut found: Vec<Placeholder> = Vec::new();
    let mut i: usize = 0;
    while i < n
        invariant
            v@ == s,
            n == s.len(),
            i <= n,
            placeholders_from(s, 0) == placeholder_views(found@) + placeholders_from(s, i as int),
        decreases n - i,
    {
        let c = v[i];
        let mut matched = false;
        if c == '$' && n - i > 2 && v[i + 1] == '{' && (('A' <= v[i + 2] && v[i + 2] <= 'Z') || v[i + 2] == '_') {
            let mut e = i + 2;
            while e < n && (('A' <= v[e] && v[e] <= 'Z') || ('0' <= v[e] && v[e] <= '9') || v[e] == '_')
                invariant
                    v@ == s,
                    n == s.len(),
                    i + 2 <= e <= n,
                    forall|j: int| i + 2 <= j < e ==> var_char(#[trigger] s[j]),
                decreases n - e,
            {
                e += 1;
            }
            proof {
                lemma_var_run_exact(s, i + 2, e as int);
            }
            if e < n && v[e] == '}' {
                let full = string_of_range(&v, i, e + 1);
                let name = string_of_range(&v, i + 2, e);
                assert(placeholder_len(s, i as int) == e + 1 - i);
                let ghost before = placeholder_views(found@);
                found.push(Placeholder { full, name });
                assert(placeholder_views(found@) =~= before.push((s.subrange(i as int, e + 1), s.subrange(i + 2, e as int))));
                assert(placeholders_from(s, i as int) =~= seq![(s.subrange(i as int, e + 1), s.subrange(i + 2, e as int))] + placeholders_from(s, e + 1));
                i = e + 1;
                matched = true;
            }
        }
        if !matched {
            assert(placeholder_len(s, i as int) == 0);
            i += 1;
        }
    }
    assert(placeholders_from(s, n as int) =~= Seq::<(Seq<char>, Seq<char>)>::empty());
    assert(placeholder_views(found@) + Seq::<(Seq<char>, Seq<char>)>::empty() =~= placeholder_views(found@));
    found
}

/// Replaces the placeholders of `input`, in order, by their values (`values[k]` belongs to
/// `found[k]`); a configuration error for the first placeholder whose variable is not set.
pub fn apply_substitutions(input: &str, found: &Vec<Placeholder>, values: &Vec<Option<String>>) -> (r: Result<String, Error>)
    requires
        found@.len() == values@.len(),
        forall|k: int| 0 <= k < found@.len() ==> (#[trigger] found@[k]).full@.len() > 0,
    ensures
        match substitute_from(input@, placeholder_views(found@), values@.map_values(|o: Option<String>| match o { Some(s) => Some(s@), None => None }), 0) {
            Ok(s) => r matches Ok(o) && o@ == s,
            Err(m) => r matches Err(Error::Config(e)) && e@ == m,
        },
{
    let ghost fs = placeholder_views(found@);
    let ghost vs = values@.map_values(|o: Option<String>| match o { Some(s) => Some(s@), None => None::<Seq<char>> });
    let mut output = owned(input);
    let mut k: usize = 0;
    while k < found.len()
        invariant
            found@.len() == values@.len(),
            forall|q: int| 0 <= q < found@.len() ==> (#[trigger] found@[q]).full@.len() > 0,
            k <= found.len(),
            fs == placeholder_views(found@),
            vs == values@.map_values(|o: Option<String>| match o { Some(s) => Some(s@), None => None::<Seq<char>> }),
            substitute_from(input@, fs, vs, 0) == substitute_from(output@, fs, vs, k as int),
        decreases found.len() - k,
    {
        let p = &found[k];
        assert(fs[k as int] == (p.full@, p.name@));
        match &values[k] {
            None => {
                assert(vs[k as int] is None);
                let mut msg = owned("environment variable `");
                msg.append(p.name.as_str());
                msg.append("` is not set (needed for `");
                msg.append(p.full.as_str());
                msg.append("`). Set it in your shell or in a `.env` file in the project root.");
                return Err(config_error(msg));
            },
            Some(value) => {
                assert(vs[k as int] == Some(value@));
                output = replace(output.as_str(), p.full.as_str(), value.as_str());
            },
        }
        k += 1;
    }
    Ok(output)
}

proof fn lemma_placeholders_nonempty(s: Seq<char>, i: int)
    ensures
        forall|k: int| 0 <= k < placeholders_from(s, i).len() ==> (#[trigger] placeholders_from(s, i)[k]).0.len() > 0,
    decreases s.len() - i,
{
    if 0 <= i < s.len() {
        if placeholder_len(s, i) > 0 && i + placeholder_len(s, i) <= s.len() {
            lemma_placeholders_nonempty(s, i + placeholder_len(s, i));
            let head = seq![(s.subrange(i, i + placeholder_len(s, i)), s.subrange(i + 2, i + placeholder_len(s, i) - 1))];
            let tail = placeholders_from(s, i + placeholder_len(s, i));
            assert(placeholders_from(s, i) == head + tail);
            assert forall|k: int| 0 <= k < (head + tail).len() implies (#[trigger] (head + tail)[k]).0.len() > 0 by {
                if k > 0 {
                    assert((head + tail)[k] == tail[k - 1]);
                } else {
                    assert((head + tail)[0] == head[0]);
                    assert(head[0].0.len() == placeholder_len(s, i));
                }
            }
        } else {
            lemma_placeholders_nonempty(s, i + 1);
            assert(placeholders_from(s, i) == placeholders_from(s, i + 1));
        }
    }
}

/// Replaces every `${NAME}` placeholder of `input` by the value of its variable, given as
/// `lookup` (the value of each placeholder's variable, in the order `find_placeholders`
/// returns them); a configuration error for the first placeholder whose variable is not set.
pub fn substitute_env(input: &str, lookup: &Vec<Option<String>>) -> (r: Result<String, Error>)
    requires
        lookup@.len() == placeholders_from(input@, 0).len(),
    ensures
        match substitute_from(input@, placeholders_from(input@, 0), lookup@.map_values(|o: Option<String>| match o { Some(s) => Some(s@), None => None }), 0) {
            Ok(s) => r matches Ok(o) && o@ == s,
            Err(m) => r matches Err(Error::Config(e)) && e@ == m,
        },
{
    let found = find_placeholders(input);
    proof {
        lemma_placeholders_nonempty(input@, 0);
        assert forall|k: int| 0 <= k < found@.len() implies (#[trigger] found@[k]).full@.len() > 0 by {
            assert(placeholder_views(found@)[k] == (found@[k].full@, found@[k].name@));
        }
    }
    apply_substitutions(input, &found, lookup)
}

/// Law: a text without placeholders comes back unchanged.
pub proof fn law_no_placeholders_unchanged(input: Seq<char>, values: Seq<Option<Seq<char>>>)
    requires
        placeholders_from(input, 0).len() == 0,
    ensures
        substitute_from(input, placeholders_from(input, 0), values, 0) == Ok::<Seq<char>, Seq<char>>(input),
{
}

/// Law: when every placeholder has a value, substitution succeeds.
pub proof fn law_all_values_succeed(out: Seq<char>, found: Seq<(Seq<char>, Seq<char>)>, values: Seq<Option<Seq<char>>>, k: int)
    requires
        0 <= k,
        values.len() == found.len(),
        forall|j: int| 0 <= j < values.len() ==> #[trigger] values[j] is Some,
    ensures
        substitute_from(out, found, values, k) is Ok,
    decreases found.len() - k,
{
    if k < found.len() {
        law_all_values_succeed(replace_all(out, found[k].0, values[k]->0), found, values, k + 1);
    }
}

/// Law: the error names the first placeholder, in order, whose variable has no value.
pub proof fn law_first_unset_reported(out: Seq<char>, found: Seq<(Seq<char>, Seq<char>)>, values: Seq<Option<Seq<char>>>, k: int, first: int)
    requires
        0 <= k <= first < found.len(),
        values.len() == found.len(),
        values[first] is None,
        forall|j: int| k <= j < first ==> #[trigger] values[j] is Some,
    ensures
        substitute_from(out, found, values, k) == Err::<Seq<char>, Seq<char>>(unset_message(found[first].1, found[first].0)),
    decreases first - k,
{
    if k < first {
        law_first_unset_reported(replace_all(out, found[k].0, values[k]->0), found, values, k + 1, first);
    }
}

} // verus!
