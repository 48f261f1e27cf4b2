//! Small text utilities shared by the emitters.

use vstd::prelude::*;
use crate::text::{contains_char, push_char, seq_join, views_of, join, lemma_views_push};

verus! {

/// `condition`, parenthesized when it holds a `{` (a struct literal would
/// otherwise be read as the start of the block).
pub open spec fn wrapped_condition(condition: Seq<char>) -> Seq<char> {
    if condition.contains('{') {
        seq!['('] + condition + seq![')']
    } else {
        condition
    }
}

pub fn wrap_if_struct_literal(condition: String) -> (r: String)
    ensures
        r@ == wrapped_condition(condition@),
{
    if contains_char(condition.as_str(), '{') {
        let mut r = String::new();
        push_char(&mut r, '(');
        r.append(condition.as_str());
        push_char(&mut r, ')');
        r
    } else {
        condition
    }
}

/// Consecutive parameters of one type, in order: the names of each run and
/// the type they share.
pub open spec fn param_groups(params: Seq<(Seq<char>, Seq<char>)>) -> Seq<(Seq<Seq<char>>, Seq<char>)>
    decreases params.len(),
{
    if params.len() == 0 {
        Seq::empty()
    } else {
        let prev = param_groups(params.drop_last());
        let (name, ty) = params.last();
        if prev.len() > 0 && prev.last().1 == ty {
            prev.update(prev.len() - 1, (prev.last().0.push(name), ty))
        } else {
            prev.push((seq![name], ty))
        }
    }
}

/// `a, b T`: the names of a run, then their type.
pub open spec fn group_text(g: (Seq<Seq<char>>, Seq<char>)) -> Seq<char> {
    seq_join(g.0, ", "@) + seq![' '] + g.1
}

pub open spec fn group_texts(groups: Seq<(Seq<Seq<char>>, Seq<char>)>) -> Seq<Seq<char>> {
    groups.map_values(|g: (Seq<Seq<char>>, Seq<char>)| group_text(g))
}

/// Go parameter text with consecutive same-typed parameters grouped:
/// `a int, b int, c string` becomes `a, b int, c string`.
pub open spec fn grouped_params_text(params: Seq<(Seq<char>, Seq<char>)>) -> Seq<char> {
    seq_join(group_texts(param_groups(params)), ", "@)
}

pub open spec fn pairs_view(params: Seq<(String, String)>) -> Seq<(Seq<char>, Seq<char>)> {
    params.map_values(|p: (String, String)| (p.0@, p.1@))
}

fn clone_string(s: &String) -> (r: String)
    ensures
        r@ == s@,
{
    s.clone()
}

fn group_string(names: &Vec<String>, ty: &String) -> (r: String)
    ensures
        r@ == group_text((views_of(names@), ty@)),
{
    let mut r = join(names, ", ");
    push_char(&mut r, ' ');
    r.append(ty.as_str());
    r
}

/// Groups consecutive parameters that share a Go type.
pub fn group_params(params: &Vec<(String, String)>) -> (r: String)
    ensures
        r@ == grouped_params_text(pairs_view(params@)),
{
    let ghost ps = pairs_view(params@);
    if params.len() == 0 {
        assert(param_groups(ps) =~= Seq::empty());
        assert(group_texts(param_groups(ps)) =~= Seq::empty());
        return String::new();
    }
    let mut parts: Vec<String> = Vec::new();
    let mut names: Vec<String> = Vec::new();
    names.push(clone_string(&params[0].0));
    let mut current_ty: String = clone_string(&params[0].1);
    let ghost mut done: Seq<(Seq<Seq<char>>, Seq<char>)> = Seq::empty();
    proof {
        assert(ps.subrange(0, 1).drop_last() =~= Seq::<(Seq<char>, Seq<char>)>::empty());
        assert(param_groups(ps.subrange(0, 1).drop_last()) =~= Seq::empty());
        assert(views_of(names@) =~= seq![params@[0].0@]);
        assert(param_groups(ps.subrange(0, 1)) =~= done.push((views_of(names@), current_ty@)));
        assert(views_of(parts@) =~= group_texts(done));
    }
    let mut i: usize = 1;
    while i < params.len()
        invariant
            1 <= i <= params@.len(),
            ps == pairs_view(params@),
            param_groups(ps.subrange(0, i as int)) == done.push((views_of(names@), current_ty@)),
            views_of(parts@) == group_texts(done),
        decreases params.len() - i,
    {
        proof {
            assert(ps.subrange(0, i + 1).drop_last() =~= ps.subrange(0, i as int));
            assert(ps.subrange(0, i + 1).last() == ps[i as int]);
        }
        if str_equal(&params[i].1, &current_ty) {
            let ghost before = names@;
            names.push(clone_string(&params[i].0));
            proof {
                lemma_views_push(before, names@.last());
                assert(param_groups(ps.subrange(0, i + 1)) =~= done.push(
                    (views_of(names@), current_ty@),
                ));
            }
        } else {
            let finished = group_string(&names, &current_ty);
            let ghost before_parts = parts@;
            parts.push(finished);
            proof {
                lemma_views_push(before_parts, finished);
                done = done.push((views_of(names@), current_ty@));
                assert(views_of(parts@) =~= group_texts(done));
            }
            names = Vec::new();
            names.push(clone_string(&params[i].0));
            current_ty = clone_string(&params[i].1);
            proof {
                assert(views_of(names@) =~= seq![params@[i as int].0@]);
                assert(param_groups(ps.subrange(0, i + 1)) =~= done.push(
                    (views_of(names@), current_ty@),
                ));
            }
        }
        i = i + 1;
    }
    assert(ps.subrange(0, i as int) =~= ps);
    let last = group_string(&names, &current_ty);
    let ghost before_parts = parts@;
    parts.push(last);
    proof {
        lemma_views_push(before_parts, last);
        assert(group_texts(param_groups(ps)) =~= views_of(parts@));
    }
    join(&parts, ", ")
}

fn str_equal(a: &String, b: &String) -> (r: bool)
    ensures
        r == (a@ == b@),
{
    crate::text::str_eq(a.as_str(), b.as_str())
}

/// The parameters a run of grouped names stands for.
pub open spec fn ungroup(g: (Seq<Seq<char>>, Seq<char>)) -> Seq<(Seq<char>, Seq<char>)> {
    g.0.map_values(|n: Seq<char>| (n, g.1))
}

/// The parameters a list of runs stands for, in order.
pub open spec fn ungroup_all(groups: Seq<(Seq<Seq<char>>, Seq<char>)>) -> Seq<(Seq<char>, Seq<char>)>
    decreases groups.len(),
{
    if groups.len() == 0 {
        Seq::empty()
    } else {
        ungroup_all(groups.drop_last()) + ungroup(groups.last())
    }
}

/// Grouping loses nothing: the runs stand for exactly the parameters, in
/// order, and neighbouring runs have different types.
pub proof fn law_grouping_keeps_parameters(params: Seq<(Seq<char>, Seq<char>)>)
    ensures
        ungroup_all(param_groups(params)) == params,
        forall|k: int|
            0 <= k < param_groups(params).len() - 1 ==> #[trigger] param_groups(params)[k].1
                != param_groups(params)[k + 1].1,
        forall|k: int| 0 <= k < param_groups(params).len() ==> #[trigger] param_groups(params)[k].0.len() > 0,
    decreases params.len(),
{
    if params.len() > 0 {
        let prev_params = params.drop_last();
        law_grouping_keeps_parameters(prev_params);
        let prev = param_groups(prev_params);
        let (name, ty) = params.last();
        if prev.len() > 0 && prev.last().1 == ty {
            let g = param_groups(params);
            let last = (prev.last().0.push(name), ty);
            assert(g == prev.update(prev.len() - 1, last));
            assert(g.drop_last() =~= prev.drop_last());
            assert(prev.drop_last().push(prev.last()) =~= prev);
            assert(ungroup_all(prev) == ungroup_all(prev.drop_last()) + ungroup(prev.last()));
            assert(ungroup(last) =~= ungroup(prev.last()).push((name, ty)));
            assert(ungroup_all(g) == ungroup_all(g.drop_last()) + ungroup(g.last()));
            assert(ungroup_all(g) =~= ungroup_all(prev).push((name, ty)));
            assert(prev_params.push((name, ty)) =~= params);
        } else {
            let g = param_groups(params);
            assert(g == prev.push((seq![name], ty)));
            assert(g.drop_last() =~= prev);
            assert(ungroup((seq![name], ty)) =~= seq![(name, ty)]);
            assert(ungroup_all(g) =~= ungroup_all(prev).push((name, ty)));
            assert(prev_params.push((name, ty)) =~= params);
        }
    }
}

} // verus!
