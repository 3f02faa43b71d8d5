//! Rendering `{{placeholders}}` in action commands with robot-specific data.
//!
//! Supported placeholders: `{{robot_id}}`, `{{robot_name}}`, `{{robot_type}}`,
//! `{{address}}` and `{{vars.<key>}}`. Double braces keep shell `${VAR}`
//! expansions and brace ranges like `{1..3}` intact.

use vstd::prelude::*;

use crate::config::{RobotConfig, RobotConfigModel};
use crate::error::{TemplateError, TemplateErrorModel};
use crate::strmap::{pairs_to_map, Duplicate, StrMap};
use crate::text::{
    push_char, starts_with_seq, str_eq, str_starts_with, str_trim, to_owned_string, trim_seq,
};

verus! {

/// A fully resolved action invocation, ready to send to one robot's agent.
#[derive(Debug)]
pub struct RunSpec {
    pub command: String,
    pub env: StrMap<String>,
    pub cwd: Option<String>,
    pub timeout_sec: Option<u64>,
}

/// `t` holds an opening `{{` somewhere.
pub open spec fn has_open(t: Seq<char>) -> bool {
    exists|i: int| 0 <= i && i + 1 < t.len() && #[trigger] t[i] == '{' && t[i + 1] == '{'
}

/// The placeholder closes with `}}` at position `i` of `s`.
pub open spec fn closes_at(s: Seq<char>, i: int) -> bool {
    0 <= i && i + 1 < s.len() && s[i] == '}' && s[i + 1] == '}'
}

/// Position of the first `}}` in `s`.
pub open spec fn find_close(s: Seq<char>) -> Option<nat>
    decreases s.len(),
{
    if s.len() < 2 {
        None
    } else if s[0] == '}' && s[1] == '}' {
        Some(0)
    } else {
        match find_close(s.drop_first()) {
            Some(i) => Some(i + 1),
            None => None,
        }
    }
}

/// What `find_close` means, position by position.
pub proof fn lemma_find_close(s: Seq<char>)
    ensures
        match find_close(s) {
            Some(i) => closes_at(s, i as int) && forall|j: int| 0 <= j < i ==> !#[trigger] closes_at(s, j),
            None => forall|j: int| !#[trigger] closes_at(s, j),
        },
    decreases s.len(),
{
    if s.len() >= 2 && !(s[0] == '}' && s[1] == '}') {
        let t = s.drop_first();
        lemma_find_close(t);
        assert forall|j: int| 0 < j && #[trigger] closes_at(s, j) implies closes_at(t, j - 1) by {}
        match find_close(t) {
            Some(i) => {
                assert forall|j: int| 0 <= j < i + 1 implies !#[trigger] closes_at(s, j) by {
                    if j > 0 {
                        assert(!closes_at(t, j - 1));
                    }
                }
            },
            None => {
                assert forall|j: int| !#[trigger] closes_at(s, j) by {
                    if j > 0 && closes_at(s, j) {
                        assert(closes_at(t, j - 1));
                    }
                }
            },
        }
    }
}

/// The value a placeholder expression stands for. The expression is
/// trimmed first.
pub open spec fn lookup_spec(expr: Seq<char>, robot: RobotConfigModel) -> Result<
    Seq<char>,
    TemplateErrorModel,
> {
    let e = trim_seq(expr);
    if e == "robot_id"@ {
        Ok(robot.id)
    } else if e == "robot_name"@ {
        Ok(robot.display_name())
    } else if e == "robot_type"@ {
        Ok(robot.kind)
    } else if e == "address"@ {
        Ok(
            match robot.address {
                Some(a) => a,
                None => Seq::empty(),
            },
        )
    } else if starts_with_seq(e, "vars."@) {
        let key = e.skip("vars."@.len() as int);
        if pairs_to_map(robot.vars).contains_key(key) {
            Ok(pairs_to_map(robot.vars)[key])
        } else {
            Err(TemplateErrorModel::UnknownPlaceholder { name: key })
        }
    } else {
        Err(TemplateErrorModel::UnknownPlaceholder { name: e })
    }
}

/// `p` followed by the rendering `r`, or `r`'s error.
pub open spec fn prepend(p: Seq<char>, r: Result<Seq<char>, TemplateErrorModel>) -> Result<
    Seq<char>,
    TemplateErrorModel,
> {
    match r {
        Ok(o) => Ok(p + o),
        Err(e) => Err(e),
    }
}

/// The command a template renders to for `robot`, scanning left to right:
/// `{{` opens a placeholder that the first following `}}` closes; every
/// other character is copied as it is. The first problem met is the error.
pub open spec fn render(t: Seq<char>, robot: RobotConfigModel) -> Result<Seq<char>, TemplateErrorModel>
    decreases t.len(),
{
    if t.len() == 0 {
        Ok(Seq::empty())
    } else if t.len() >= 2 && t[0] == '{' && t[1] == '{' {
        let rest = t.skip(2);
        match find_close(rest) {
            None => Err(TemplateErrorModel::Unclosed),
            Some(c) => {
                proof {
                    lemma_find_close(rest);
                }
                match lookup_spec(rest.take(c as int), robot) {
                    Err(e) => Err(e),
                    Ok(v) => prepend(v, render(rest.skip(c + 2 as int), robot)),
                }
            },
        }
    } else {
        prepend(seq![t[0]], render(t.drop_first(), robot))
    }
}

proof fn lemma_prepend_assoc(a: Seq<char>, b: Seq<char>, r: Result<Seq<char>, TemplateErrorModel>)
    ensures
        prepend(a, prepend(b, r)) == prepend(a + b, r),
{
    match r {
        Ok(o) => {
            assert(a + (b + o) =~= (a + b) + o);
        },
        Err(e) => {},
    }
}

/// The value of one placeholder expression for `robot`.
pub fn lookup<'a>(expr: &str, robot: &'a RobotConfig) -> (r: Result<&'a str, TemplateError>)
    ensures
        match r {
            Ok(v) => lookup_spec(expr@, robot.deep_view()) == Ok::<Seq<char>, TemplateErrorModel>(v@),
            Err(e) => lookup_spec(expr@, robot.deep_view()) == Err::<Seq<char>, TemplateErrorModel>(
                e.deep_view(),
            ),
        },
{
    let e = str_trim(expr);
    let ghost spec = lookup_spec(expr@, robot.deep_view());
    if str_eq(e, "robot_id") {
        let out = robot.id.as_str();
        assert(spec == Ok::<Seq<char>, TemplateErrorModel>(out@));
        Ok(out)
    } else if str_eq(e, "robot_name") {
        let n = robot.display_name();
        assert(spec == Ok::<Seq<char>, TemplateErrorModel>(n@));
        Ok(n)
    } else if str_eq(e, "robot_type") {
        let out = robot.kind.as_str();
        assert(spec == Ok::<Seq<char>, TemplateErrorModel>(out@));
        Ok(out)
    } else if str_eq(e, "address") {
        match &robot.address {
            Some(a) => {
                let out = a.as_str();
                assert(spec == Ok::<Seq<char>, TemplateErrorModel>(out@));
                Ok(out)
            },
            None => {
                let out = "";
                proof {
                    reveal_strlit("");
                    assert(out@ =~= Seq::<char>::empty());
                }
                assert(spec == Ok::<Seq<char>, TemplateErrorModel>(out@));
                Ok(out)
            },
        }
    } else if str_starts_with(e, "vars.") {
        let plen = "vars.".unicode_len();
        let key = e.substring_char(plen, e.unicode_len());
        assert(key@ =~= e@.skip("vars."@.len() as int));
        match robot.vars.get(key) {
            Some(v) => {
                let out = v.as_str();
                assert(spec == Ok::<Seq<char>, TemplateErrorModel>(out@));
                Ok(out)
            },
            None => Err(TemplateError::UnknownPlaceholder { name: to_owned_string(key) }),
        }
    } else {
        Err(TemplateError::UnknownPlaceholder { name: to_owned_string(e) })
    }
}

/// Position (in `t`, at or after `from`) of the first `}}`.
fn find_close_from(t: &str, from: usize) -> (r: Option<usize>)
    requires
        from <= t@.len(),
    ensures
        match r {
            Some(c) => find_close(t@.skip(from as int)) == Some(c as nat) && from + c + 2 <= t@.len(),
            None => find_close(t@.skip(from as int)) is None,
        },
{
    let ghost s = t@.skip(from as int);
    proof {
        lemma_find_close(s);
    }
    let n = t.unicode_len();
    let mut j: usize = from;
    while n - j >= 2
        invariant
            from <= j <= n,
            n == t@.len(),
            s == t@.skip(from as int),
            forall|q: int| 0 <= q < j - from ==> !#[trigger] closes_at(s, q),
        decreases n - j,
    {
        if t.get_char(j) == '}' && t.get_char(j + 1) == '}' {
            assert(closes_at(s, (j - from) as int));
            proof {
                lemma_find_close(s);
                match find_close(s) {
                    Some(k) => {
                        assert(closes_at(s, k as int));
                    },
                    None => {},
                }
            }
            return Some(j - from);
        }
        assert(!closes_at(s, (j - from) as int));
        j = j + 1;
    }
    proof {
        lemma_find_close(s);
        match find_close(s) {
            Some(k) => {
                assert(closes_at(s, k as int));
                assert(!closes_at(s, k as int));
            },
            None => {},
        }
    }
    None
}

/// Resolve the placeholders of an action command for one robot. The
/// environment is the robot's own, overridden by the action's entries.
pub fn resolve_command(
    template: &str,
    robot: &RobotConfig,
    timeout_sec: Option<u64>,
    extra_env: &StrMap<String>,
    cwd: Option<String>,
) -> (r: Result<RunSpec, TemplateError>)
    ensures
        match r {
            Ok(spec) => {
                &&& render(template@, robot.deep_view()) == Ok::<Seq<char>, TemplateErrorModel>(
                    spec.command@,
                )
                &&& spec.env.map() == robot.env.map().union_prefer_right(extra_env.map())
                &&& spec.cwd == cwd
                &&& spec.timeout_sec == timeout_sec
            },
            Err(e) => render(template@, robot.deep_view()) == Err::<Seq<char>, TemplateErrorModel>(
                e.deep_view(),
            ),
        },
        !has_open(template@) ==> (r matches Ok(spec) && spec.command@ == template@),
{
    proof {
        if !has_open(template@) {
            crate::laws::law_plain_template_unchanged(template@, robot.deep_view());
        }
    }
    let ghost rm = robot.deep_view();
    let n = template.unicode_len();
    let mut out = String::new();
    let mut i: usize = 0;
    assert(template@.skip(0) =~= template@);
    while i < n
        invariant
            i <= n,
            n == template@.len(),
            rm == robot.deep_view(),
            render(template@, rm) == prepend(out@, render(template@.skip(i as int), rm)),
        decreases n - i,
    {
        let ghost t = template@.skip(i as int);
        let c = template.get_char(i);
        if c == '{' && i + 1 < n && template.get_char(i + 1) == '{' {
            match find_close_from(template, i + 2) {
                None => {
                    assert(template@.skip(i as int).skip(2) =~= template@.skip(i + 2));
                    return Err(TemplateError::Unclosed);
                },
                Some(close) => {
                    let expr = template.substring_char(i + 2, i + 2 + close);
                    assert(t.skip(2) =~= template@.skip(i + 2));
                    assert(t.skip(2).take(close as int) =~= expr@);
                    match lookup(expr, robot) {
                        Err(e) => {
                            return Err(e);
                        },
                        Ok(v) => {
                            let ghost before = out@;
                            out.append(v);
                            assert(t.skip(2).skip(close + 2) =~= template@.skip(i + 2 + close + 2));
                            proof {
                                lemma_prepend_assoc(
                                    before,
                                    v@,
                                    render(template@.skip(i + 2 + close + 2), rm),
                                );
                            }
                            i = i + 2 + close + 2;
                        },
                    }
                },
            }
        } else {
            let ghost before = out@;
            push_char(&mut out, c);
            assert(t.drop_first() =~= template@.skip(i + 1));
            assert(before.push(c) =~= before + seq![c]);
            proof {
                lemma_prepend_assoc(before, seq![c], render(template@.skip(i + 1), rm));
            }
            i = i + 1;
        }
    }
    assert(template@.skip(n as int) =~= Seq::<char>::empty());
    assert(out@ + Seq::<char>::empty() =~= out@);
    proof {
        use_type_invariant(extra_env);
    }
    let mut env = robot.env.duplicate();
    let m = extra_env.len();
    let mut k: usize = 0;
    while k < m
        invariant
            k <= m,
            m == extra_env.pairs().len(),
            crate::strmap::keys_sorted(extra_env.pairs()),
            env.map() == robot.env.map().union_prefer_right(
                crate::strmap::pairs_to_map(extra_env.pairs().take(k as int)),
            ),
        decreases m - k,
    {
        let key = extra_env.key_at(k).clone();
        let val = extra_env.value_at(k).clone();
        env.insert(key, val);
        proof {
            crate::strmap::lemma_pairs_to_map_push(extra_env.pairs().take(k as int), extra_env.pairs()[k as int]);
            assert(extra_env.pairs().take(k + 1) =~= extra_env.pairs().take(k as int).push(extra_env.pairs()[k as int]));
        }
        k = k + 1;
    }
    proof {
        assert(extra_env.pairs().take(m as int) =~= extra_env.pairs());
    }
    Ok(RunSpec { command: out, env, cwd, timeout_sec })
}

} // verus!
