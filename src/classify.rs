//! The error classifier: regular-expression rules over log text, each with
//! a message template whose `{}` placeholders take the captured groups.
use vstd::prelude::*;
use vstd::string::StrSliceExecFns;
use vstd::string::StringExecFns;

verus! {

/// What the capture groups of a pattern hold for a text, group 0 being the
/// whole match; `None` where the pattern does not compile or does not match.
pub uninterp spec fn captures_of(pattern: Seq<char>, text: Seq<char>) -> Option<Seq<Option<Seq<char>>>>;

pub open spec fn groups_view(v: Seq<Option<String>>) -> Seq<Option<Seq<char>>> {
    v.map_values(|g: Option<String>| match g {
        Some(s) => Some(s@),
        None => None,
    })
}

/// Relies on regex::Regex (as lazy_regex re-exports it): `new` compiles the
/// pattern, `captures` finds the first match and its groups, of which there
/// is always at least group 0.
#[verifier::external_body]
pub(crate) fn regex_captures(pattern: &str, text: &str) -> (r: Option<Vec<Option<String>>>)
    ensures
        r matches Some(v) ==> captures_of(pattern@, text@) == Some(groups_view(v@)) && v@.len() >= 1,
        r is None ==> captures_of(pattern@, text@) is None,
{
    let caps = lazy_regex::Regex::new(pattern).ok()?.captures(text)?;
    Some(caps.iter().map(|g| g.map(|m| m.as_str().to_string())).collect())
}

/// Index of the first `{}` in `t`, if any.
pub open spec fn first_placeholder(t: Seq<char>) -> Option<int> {
    if exists|i: int| is_placeholder_at(t, i) {
        Some(choose|i: int| is_placeholder_at(t, i) && forall|j: int| 0 <= j < i ==> !is_placeholder_at(t, j))
    } else {
        None
    }
}

pub open spec fn is_placeholder_at(t: Seq<char>, i: int) -> bool {
    0 <= i && i + 1 < t.len() && t[i] == '{' && t[i + 1] == '}'
}

/// `t` with its first `{}` replaced by `c`, or unchanged without one.
pub open spec fn replace_first(t: Seq<char>, c: Seq<char>) -> Seq<char> {
    match first_placeholder(t) {
        Some(i) => t.subrange(0, i) + c + t.subrange(i + 2, t.len() as int),
        None => t,
    }
}

/// The template after each group that took part in the match, in order,
/// has filled the first placeholder left.
pub open spec fn fill_template(t: Seq<char>, groups: Seq<Option<Seq<char>>>) -> Seq<char>
    decreases groups.len(),
{
    if groups.len() == 0 {
        t
    } else {
        let rest = fill_template(t, groups.drop_last());
        match groups.last() {
            Some(c) => replace_first(rest, c),
            None => rest,
        }
    }
}

/// Replaces the first `{}` of `t` with `c`.
fn replace_placeholder(t: &str, c: &str) -> (r: String)
    ensures
        r@ == replace_first(t@, c@),
{
    let n = t.unicode_len();
    let mut i: usize = 0;
    while n > 0 && i < n - 1
        invariant
            n == t@.len(),
            forall|j: int| 0 <= j < i ==> !is_placeholder_at(t@, j),
        decreases n - i,
    {
        if t.get_char(i) == '{' && t.get_char(i + 1) == '}' {
            assert(is_placeholder_at(t@, i as int));
            let ghost k = first_placeholder(t@)->0;
            assert(k == i) by {
                if k < i {
                } else if k > i {
                }
            }
            let mut out = String::from_str(t.substring_char(0, i));
            out.append(c);
            out.append(t.substring_char(i + 2, n));
            return out;
        }
        i = i + 1;
    }
    assert(first_placeholder(t@) is None) by {
        assert forall|j: int| !is_placeholder_at(t@, j) by {
            if 0 <= j && j + 1 < n {
                assert(j < i);
            }
        }
    }
    String::from_str(t)
}

/// One rule of the classifier.
#[derive(Debug, Clone, PartialEq, Eq)]
pub struct MinerError {
    pub re: &'static str,
    pub msg: &'static str,
}

impl MinerError {
    /// The message of this rule for a log text, if its pattern matches:
    /// the template with its placeholders filled by the captured groups.
    pub fn get_msg(&self, line: &str) -> (r: Option<String>)
        ensures
            captures_of(self.re@, line@) is None ==> r is None,
            captures_of(self.re@, line@) matches Some(g) ==> r matches Some(m) && m@ == fill_template(
                self.msg@,
                g.drop_first(),
            ),
    {
        let caps = match regex_captures(self.re, line) {
            Some(c) => c,
            None => {
                return None;
            },
        };
        let ghost g = groups_view(caps@);
        let mut msg = String::from_str(self.msg);
        assert(g.subrange(1, 1) =~= seq![]);
        let mut k: usize = 1;
        while k < caps.len()
            invariant
                1 <= k <= caps@.len(),
                g == groups_view(caps@),
                msg@ == fill_template(self.msg@, g.subrange(1, k as int)),
            decreases caps@.len() - k,
        {
            assert(g.subrange(1, k + 1).drop_last() =~= g.subrange(1, k as int));
            match &caps[k] {
                Some(c) => {
                    msg = replace_placeholder(msg.as_str(), c.as_str());
                },
                None => {},
            }
            k = k + 1;
        }
        assert(g.subrange(1, k as int) =~= g.drop_first());
        Some(msg)
    }
}

/// Whether the messages hold no text twice.
pub open spec fn distinct_texts(v: Seq<String>) -> bool {
    forall|i: int, j: int| 0 <= i < j < v.len() ==> v[i]@ != v[j]@
}

/// Whether `s` is among the texts of `v`.
fn has_text(v: &Vec<String>, s: &String) -> (r: bool)
    ensures
        r == exists|i: int| 0 <= i < v@.len() && v@[i]@ == s@,
{
    let mut k: usize = 0;
    while k < v.len()
        invariant
            k <= v@.len(),
            forall|i: int| 0 <= i < k ==> v@[i]@ != s@,
        decreases v@.len() - k,
    {
        if v[k] == *s {
            return true;
        }
        k = k + 1;
    }
    false
}

/// The message that a rule gives for a log, if its pattern matches.
pub open spec fn rule_message(rule: MinerError, log: Seq<char>) -> Option<Seq<char>> {
    match captures_of(rule.re@, log) {
        Some(g) => Some(fill_template(rule.msg@, g.drop_first())),
        None => None,
    }
}

/// Whether some rule gives the message `m` for the log.
pub open spec fn from_some_rule(rules: Seq<MinerError>, log: Seq<char>, m: Seq<char>) -> bool {
    exists|i: int| 0 <= i < rules.len() && #[trigger] rule_message(rules[i], log) == Some(m)
}

/// Whether `m` is among the texts of `v`.
pub open spec fn has_message(v: Seq<String>, m: Seq<char>) -> bool {
    exists|j: int| 0 <= j < v.len() && v[j]@ == m
}

/// The messages of every rule that matches the log, each text once. A
/// message is in the result exactly when some rule gives it.
pub fn classify(log: &str, rules: &Vec<MinerError>) -> (r: Vec<String>)
    ensures
        distinct_texts(r@),
        forall|i: int|
            0 <= i < rules@.len() ==> (#[trigger] rule_message(rules@[i], log@) matches Some(m) ==> has_message(
                r@,
                m,
            )),
        forall|j: int| 0 <= j < r@.len() ==> from_some_rule(rules@, log@, #[trigger] r@[j]@),
{
    let mut out: Vec<String> = Vec::new();
    let mut k: usize = 0;
    while k < rules.len()
        invariant
            k <= rules@.len(),
            distinct_texts(out@),
            forall|i: int|
                0 <= i < k ==> (#[trigger] rule_message(rules@[i], log@) matches Some(m) ==> has_message(
                    out@,
                    m,
                )),
            forall|j: int| 0 <= j < out@.len() ==> from_some_rule(rules@, log@, #[trigger] out@[j]@),
        decreases rules@.len() - k,
    {
        let ghost before = out@;
        if let Some(m) = rules[k].get_msg(log) {
            if !has_text(&out, &m) {
                out.push(m);
                assert(out@[out@.len() - 1]@ == m@);
                assert forall|i: int| 0 <= i < k implies (#[trigger] rule_message(rules@[i], log@) matches Some(
                    x,
                ) ==> has_message(out@, x)) by {
                    if let Some(x) = rule_message(rules@[i], log@) {
                        let j = choose|j: int| 0 <= j < before.len() && before[j]@ == x;
                        assert(out@[j]@ == x);
                    }
                }
                assert forall|j: int| 0 <= j < out@.len() implies from_some_rule(rules@, log@, #[trigger] out@[j]@) by {
                    if j == out@.len() - 1 {
                        assert(rule_message(rules@[k as int], log@) == Some(out@[j]@));
                    } else {
                        assert(out@[j] == before[j]);
                    }
                }
            }
            assert(has_message(out@, m@));
        }
        k = k + 1;
    }
    out
}

} // verus!
