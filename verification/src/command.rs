//! The command line that runs a script with the values of its controls.

use crate::binding::BoundView;
use crate::controls;
use crate::model;
use crate::model::{Param, ParamKind, ParamView};
use crate::order;
use crate::text;
use vstd::prelude::*;

verus! {

// ---------------------------------------------------------------------------
// Quoting
// ---------------------------------------------------------------------------

/// `s` with each single quote doubled.
pub open spec fn doubled(s: Seq<char>) -> Seq<char>
    decreases s.len(),
{
    if s.len() == 0 {
        Seq::empty()
    } else if s[0] == '\'' {
        seq!['\'', '\''] + doubled(s.drop_first())
    } else {
        seq![s[0]] + doubled(s.drop_first())
    }
}

/// `s` as a PowerShell single-quoted string.
pub open spec fn quoted(s: Seq<char>) -> Seq<char> {
    seq!['\''] + doubled(s) + seq!['\'']
}

/// Quote a value as a PowerShell single-quoted string (doubling embedded quotes).
pub fn ps_quote(s: &str) -> (r: String)
    ensures
        r@ == quoted(s@),
{
    let v = text::to_chars(s);
    let n: usize = v.len();
    let mut out = String::new();
    out.push('\'');
    let mut i: usize = 0;
    assert(v@.subrange(0, n as int) =~= v@);
    assert(out@ =~= seq!['\'']);
    while i < n
        invariant
            i <= n,
            n == v.len(),
            v@ == s@,
            out@ + doubled(v@.subrange(i as int, n as int)) == seq!['\''] + doubled(s@),
        decreases n - i,
    {
        let c: char = v[i];
        let ghost so_far = out@;
        let ghost rest = v@.subrange(i + 1, n as int);
        assert(v@.subrange(i as int, n as int).drop_first() =~= rest);
        out.push(c);
        if c == '\'' {
            out.push(c);
            assert(so_far.push(c).push(c) + doubled(rest) =~= so_far + (seq!['\'', '\'']
                + doubled(rest)));
        } else {
            assert(so_far.push(c) + doubled(rest) =~= so_far + (seq![c] + doubled(rest)));
        }
        i += 1;
    }
    assert(doubled(v@.subrange(n as int, n as int)) =~= Seq::empty());
    assert(out@ =~= seq!['\''] + doubled(s@));
    out.push('\'');
    assert(out@ =~= quoted(s@));
    out
}

/// What a single-quoted string holds and what follows it, read from just behind
/// its opening quote: a doubled quote stands for one, and a single one ends the
/// string.
pub open spec fn read_quoted(s: Seq<char>) -> Option<(Seq<char>, Seq<char>)>
    decreases s.len(),
{
    if s.len() == 0 {
        None
    } else if s[0] != '\'' {
        match read_quoted(s.drop_first()) {
            Some((value, rest)) => Some((seq![s[0]] + value, rest)),
            None => None,
        }
    } else if s.len() > 1 && s[1] == '\'' {
        match read_quoted(s.subrange(2, s.len() as int)) {
            Some((value, rest)) => Some((seq!['\''] + value, rest)),
            None => None,
        }
    } else {
        Some((Seq::empty(), s.drop_first()))
    }
}

proof fn lemma_doubled_is_read(value: Seq<char>, rest: Seq<char>)
    requires
        rest.len() == 0 || rest[0] != '\'',
    ensures
        read_quoted(doubled(value) + (seq!['\''] + rest)) == Some((value, rest)),
    decreases value.len(),
{
    let tail = seq!['\''] + rest;
    let s = doubled(value) + tail;
    if value.len() == 0 {
        assert(s =~= tail);
        assert(s[0] == '\'');
        assert(s.drop_first() =~= rest);
        assert(value =~= Seq::<char>::empty());
    } else {
        let inner = value.drop_first();
        lemma_doubled_is_read(inner, rest);
        if value[0] == '\'' {
            assert(s[0] == '\'' && s[1] == '\'');
            assert(s.subrange(2, s.len() as int) =~= doubled(inner) + tail);
        } else {
            assert(s[0] == value[0]);
            assert(s.drop_first() =~= doubled(inner) + tail);
        }
        assert(seq![value[0]] + inner =~= value);
    }
}

/// A quoted value is read back as the value, and the string ends where the
/// quoted value does, whatever the value holds and whatever but a quote
/// follows.
pub proof fn quoting_is_faithful(value: Seq<char>, rest: Seq<char>)
    requires
        rest.len() == 0 || rest[0] != '\'',
    ensures
        quoted(value)[0] == '\'',
        read_quoted((quoted(value) + rest).drop_first()) == Some((value, rest)),
{
    lemma_doubled_is_read(value, rest);
    assert((quoted(value) + rest).drop_first() =~= doubled(value) + (seq!['\''] + rest));
}

// ---------------------------------------------------------------------------
// The parts of a command
// ---------------------------------------------------------------------------

/// The value that a control sets an environment variable to.
pub open spec fn env_value(p: ParamView) -> Seq<char> {
    if p.kind == ParamKind::Bool {
        controls::bool_text(p.bool_value)
    } else {
        text::trimmed(p.value)
    }
}

/// The assignment that sets a control's environment variable before the call;
/// empty when there is none to set.
pub open spec fn env_assignment(p: ParamView) -> Seq<char> {
    if p.as_env && env_value(p).len() > 0 {
        "$env:"@ + p.name + " = "@ + quoted(env_value(p)) + "; "@
    } else {
        Seq::empty()
    }
}

/// The named argument that passes a control's value, with the space before it;
/// empty when there is none to pass.
pub open spec fn named_argument(p: ParamView) -> Seq<char> {
    if p.as_env || p.position is Some {
        Seq::empty()
    } else if p.kind == ParamKind::Bool {
        if !p.is_switch {
            " -"@ + p.name + ":$"@ + controls::bool_text(p.bool_value)
        } else if p.bool_value {
            " -"@ + p.name
        } else {
            Seq::empty()
        }
    } else if text::is_blank(p.value) {
        Seq::empty()
    } else {
        " -"@ + p.name + " "@ + quoted(text::trimmed(p.value))
    }
}

/// The positional argument that passes a control's value, with the space before
/// it.
pub open spec fn positional_argument(p: ParamView) -> Seq<char> {
    " "@ + quoted(text::trimmed(p.value))
}

/// The assignments for the controls, one after the other.
pub open spec fn env_prefix(params: Seq<ParamView>) -> Seq<char>
    decreases params.len(),
{
    if params.len() == 0 {
        Seq::empty()
    } else {
        env_prefix(params.drop_last()) + env_assignment(params.last())
    }
}

/// The named arguments for the controls, one after the other.
pub open spec fn named_arguments(params: Seq<ParamView>) -> Seq<char>
    decreases params.len(),
{
    if params.len() == 0 {
        Seq::empty()
    } else {
        named_arguments(params.drop_last()) + named_argument(params.last())
    }
}

/// Whether a control is passed by position.
pub open spec fn is_positional(p: ParamView) -> bool {
    p.position is Some && !p.as_env
}

/// The controls that are passed by position.
pub open spec fn positionals(params: Seq<ParamView>) -> Seq<ParamView>
    decreases params.len(),
{
    if params.len() == 0 {
        Seq::empty()
    } else {
        let before = positionals(params.drop_last());
        if is_positional(params.last()) {
            before.push(params.last())
        } else {
            before
        }
    }
}

/// The keys by which positional controls are ordered.
pub open spec fn position_keys(params: Seq<ParamView>) -> Seq<(int, int)> {
    params.map_values(|p: ParamView| (p.position->Some_0 as int, 0int))
}

/// The controls by ascending position; those that share one keep their order.
pub open spec fn by_position(params: Seq<ParamView>) -> Seq<ParamView> {
    order::arranged(params, order::stable_order(position_keys(params)))
}

/// The positional arguments for the controls, one after the other.
pub open spec fn positional_arguments(params: Seq<ParamView>) -> Seq<char>
    decreases params.len(),
{
    if params.len() == 0 {
        Seq::empty()
    } else {
        positional_arguments(params.drop_last()) + positional_argument(params.last())
    }
}

/// The command that runs the script at `path`: the environment variables are
/// set first; a batch file gets its arguments in the order of their positions,
/// and another script gets them by name.
pub open spec fn command(path: Seq<char>, is_batch: bool, params: Seq<ParamView>) -> Seq<char> {
    env_prefix(params) + "& "@ + quoted(path) + if is_batch {
        positional_arguments(by_position(positionals(params)))
    } else {
        named_arguments(params)
    }
}

// ---------------------------------------------------------------------------
// Composing
// ---------------------------------------------------------------------------

/// Appends the assignment for a control.
fn push_assignment(out: &mut String, p: &Param)
    ensures
        final(out)@ == old(out)@ + env_assignment(p@),
{
    if p.as_env {
        let v = if p.kind == ParamKind::Bool {
            let mut s = String::new();
            s.append(controls::bool_to_str(p.bool_value));
            assert(s@ =~= controls::bool_text(p.bool_value));
            s
        } else {
            text::trim(p.value.as_str())
        };
        if !v.as_str().is_empty() {
            let q = ps_quote(v.as_str());
            out.append("$env:");
            out.append(p.name.as_str());
            out.append(" = ");
            out.append(q.as_str());
            out.append("; ");
        }
    }
    assert(out@ =~= old(out)@ + env_assignment(p@));
}

/// Appends the named argument for a control.
fn push_named(out: &mut String, p: &Param)
    ensures
        final(out)@ == old(out)@ + named_argument(p@),
{
    if !p.as_env && p.position.is_none() {
        if p.kind == ParamKind::Bool {
            if !p.is_switch {
                out.append(" -");
                out.append(p.name.as_str());
                out.append(":$");
                out.append(controls::bool_to_str(p.bool_value));
            } else if p.bool_value {
                out.append(" -");
                out.append(p.name.as_str());
            }
        } else {
            let v = text::trim(p.value.as_str());
            if !v.as_str().is_empty() {
                let q = ps_quote(v.as_str());
                out.append(" -");
                out.append(p.name.as_str());
                out.append(" ");
                out.append(q.as_str());
            }
        }
    }
    assert(out@ =~= old(out)@ + named_argument(p@));
}

/// The controls that are passed by position, in the order in which they are
/// passed.
fn ordered_positionals(params: &Vec<Param>) -> (r: Vec<Param>)
    ensures
        model::params_view(r@) == by_position(positionals(model::params_view(params@))),
{
    let ghost views = model::params_view(params@);
    let mut found: Vec<Param> = Vec::new();
    let mut keys: Vec<(i128, i128)> = Vec::new();
    let mut i: usize = 0;
    assert(views.subrange(0, 0) =~= Seq::empty());
    assert(model::params_view(found@) =~= Seq::empty());
    while i < params.len()
        invariant
            i <= params.len(),
            views == model::params_view(params@),
            model::params_view(found@) == positionals(views.subrange(0, i as int)),
            keys.len() == found.len(),
            forall|k: int|
                0 <= k < keys.len() ==> (#[trigger] keys@[k]).0
                    == found@[k].position->Some_0 as int && keys@[k].1 == 0,
        decreases params.len() - i,
    {
        assert(views.subrange(0, i + 1).drop_last() =~= views.subrange(0, i as int));
        assert(views.subrange(0, i + 1).last() == params@[i as int]@);
        if !params[i].as_env {
            if let Some(n) = params[i].position {
                let copy = params[i].clone();
                let ghost so_far = found@;
                assert(copy@.position == params@[i as int]@.position);
                found.push(copy);
                keys.push((n as i128, 0));
                assert(model::params_view(found@) =~= model::params_view(so_far).push(copy@));
            }
        }
        i += 1;
    }
    assert(views.subrange(0, i as int) =~= views);
    let ghost found_views = model::params_view(found@);
    assert(forall|k: int|
        0 <= k < found.len() ==> found_views[k].position == (#[trigger] found@[k]).position);
    assert(order::keys_view(keys@) =~= position_keys(found_views));
    let indices = order::sorted_indices(&keys);
    let mut out: Vec<Param> = Vec::new();
    let mut n: usize = 0;
    while n < indices.len()
        invariant
            n <= indices.len(),
            indices.len() == found.len(),
            forall|k: int| 0 <= k < indices.len() ==> #[trigger] indices@[k] < found.len(),
            out.len() == n,
            forall|k: int| 0 <= k < n ==> (#[trigger] out@[k])@ == found@[indices@[k] as int]@,
        decreases indices.len() - n,
    {
        out.push(found[indices[n]].clone());
        n += 1;
    }
    assert(model::params_view(out@) =~= by_position(found_views));
    out
}

/// Compose the command that runs the script at `path` with the values of the
/// controls.
pub fn compose(path: &str, is_batch: bool, params: &Vec<Param>) -> (r: String)
    ensures
        r@ == command(path@, is_batch, model::params_view(params@)),
{
    let ghost views = model::params_view(params@);
    let mut cmd = String::new();
    let mut i: usize = 0;
    assert(views.subrange(0, 0) =~= Seq::empty());
    assert(cmd@ =~= Seq::empty());
    while i < params.len()
        invariant
            i <= params.len(),
            views == model::params_view(params@),
            cmd@ == env_prefix(views.subrange(0, i as int)),
        decreases params.len() - i,
    {
        assert(views.subrange(0, i + 1).drop_last() =~= views.subrange(0, i as int));
        assert(views.subrange(0, i + 1).last() == params@[i as int]@);
        push_assignment(&mut cmd, &params[i]);
        i += 1;
    }
    assert(views.subrange(0, i as int) =~= views);
    let q = ps_quote(path);
    cmd.append("& ");
    cmd.append(q.as_str());
    let ghost head = cmd@;
    let mut args = String::new();
    if is_batch {
        let ordered = ordered_positionals(params);
        let ghost ordered_views = model::params_view(ordered@);
        let mut k: usize = 0;
        assert(ordered_views.subrange(0, 0) =~= Seq::empty());
        assert(args@ =~= Seq::empty());
        while k < ordered.len()
            invariant
                k <= ordered.len(),
                ordered_views == model::params_view(ordered@),
                args@ == positional_arguments(ordered_views.subrange(0, k as int)),
            decreases ordered.len() - k,
        {
            assert(ordered_views.subrange(0, k + 1).drop_last() =~= ordered_views.subrange(
                0,
                k as int,
            ));
            assert(ordered_views.subrange(0, k + 1).last() == ordered@[k as int]@);
            let v = text::trim(ordered[k].value.as_str());
            let q = ps_quote(v.as_str());
            let ghost so_far = args@;
            args.append(" ");
            args.append(q.as_str());
            assert(args@ =~= so_far + positional_argument(ordered@[k as int]@));
            k += 1;
        }
        assert(ordered_views.subrange(0, k as int) =~= ordered_views);
    } else {
        let mut k: usize = 0;
        assert(args@ =~= Seq::empty());
        while k < params.len()
            invariant
                k <= params.len(),
                views == model::params_view(params@),
                args@ == named_arguments(views.subrange(0, k as int)),
            decreases params.len() - k,
        {
            assert(views.subrange(0, k + 1).drop_last() =~= views.subrange(0, k as int));
            assert(views.subrange(0, k + 1).last() == params@[k as int]@);
            push_named(&mut args, &params[k]);
            k += 1;
        }
        assert(views.subrange(0, k as int) =~= views);
    }
    cmd.append(args.as_str());
    cmd
}

// ---------------------------------------------------------------------------
// Laws of commands
// ---------------------------------------------------------------------------

proof fn lemma_positionals(params: Seq<ParamView>)
    ensures
        positionals(params).len() <= params.len(),
        forall|i: int|
            0 <= i < positionals(params).len() ==> is_positional(#[trigger] positionals(params)[i]),
    decreases params.len(),
{
    if params.len() > 0 {
        lemma_positionals(params.drop_last());
        let before = positionals(params.drop_last());
        assert forall|i: int| 0 <= i < positionals(params).len() implies is_positional(
            #[trigger] positionals(params)[i],
        ) by {
            if i < before.len() {
                assert(positionals(params)[i] == before[i]);
            }
        }
    }
}

/// A batch file gets one argument for each control that is bound to a position
/// and to no environment variable, by ascending position.
pub proof fn batch_arguments_are_in_order(params: Seq<ParamView>)
    ensures
        by_position(positionals(params)).len() == positionals(params).len(),
        forall|i: int, j: int|
            0 <= i < j < by_position(positionals(params)).len() ==> (#[trigger] by_position(
                positionals(params),
            )[i]).position->Some_0 <= (#[trigger] by_position(
                positionals(params),
            )[j]).position->Some_0,
        forall|i: int|
            0 <= i < by_position(positionals(params)).len() ==> is_positional(
                #[trigger] by_position(positionals(params))[i],
            ),
        forall|k: int|
            0 <= k < positionals(params).len() ==> by_position(positionals(params)).contains(
                #[trigger] positionals(params)[k],
            ),
{
    let found = positionals(params);
    let keys = position_keys(found);
    let ordered = by_position(found);
    let indices = order::stable_order(keys);
    lemma_positionals(params);
    order::order_is_stable(keys);
    assert forall|i: int, j: int| 0 <= i < j < ordered.len() implies (
    #[trigger] ordered[i]).position->Some_0 <= (#[trigger] ordered[j]).position->Some_0 by {
        assert(order::comes_before(keys, indices[i], indices[j]));
        assert(ordered[i] == found[indices[i]] && ordered[j] == found[indices[j]]);
        assert(keys[indices[i]].0 == ordered[i].position->Some_0 as int);
        assert(keys[indices[j]].0 == ordered[j].position->Some_0 as int);
    }
    assert forall|i: int| 0 <= i < ordered.len() implies is_positional(#[trigger] ordered[i]) by {
        assert(ordered[i] == found[indices[i]]);
    }
    assert forall|k: int| 0 <= k < found.len() implies ordered.contains(#[trigger] found[k]) by {
        assert(indices.contains(k));
        let i = choose|i: int| 0 <= i < indices.len() && indices[i] == k;
        assert(ordered[i] == found[k]);
    }
}

/// Whether controls that share a position pass the same argument.
pub open spec fn positions_agree(params: Seq<ParamView>) -> bool {
    forall|i: int, j: int|
        0 <= i < params.len() && 0 <= j < params.len() && is_positional(#[trigger] params[i])
            && is_positional(#[trigger] params[j]) && params[i].position == params[j].position
            ==> positional_argument(params[i]) == positional_argument(params[j])
}

/// The positions of controls.
spec fn positions(params: Seq<ParamView>) -> Seq<int> {
    params.map_values(|p: ParamView| p.position->Some_0 as int)
}

proof fn lemma_positionals_kept(params: Seq<ParamView>)
    ensures
        positionals(params).to_multiset() == params.to_multiset().filter(
            |p: ParamView| is_positional(p),
        ),
    decreases params.len(),
{
    broadcast use vstd::seq_lib::group_to_multiset_ensures;
    broadcast use vstd::multiset::group_multiset_axioms;

    let kept = params.to_multiset().filter(|p: ParamView| is_positional(p));
    if params.len() > 0 {
        let front = params.drop_last();
        lemma_positionals_kept(front);
        assert(front.push(params.last()) =~= params);
        assert(positionals(params).to_multiset() =~= kept);
    } else {
        assert(positionals(params).to_multiset() =~= kept);
    }
}

proof fn lemma_positions_kept(a: Seq<ParamView>, b: Seq<ParamView>)
    requires
        a.to_multiset() == b.to_multiset(),
    ensures
        positions(a).to_multiset() == positions(b).to_multiset(),
    decreases a.len(),
{
    broadcast use vstd::seq_lib::group_to_multiset_ensures;

    assert(a.len() == a.to_multiset().len() && b.len() == b.to_multiset().len());
    if a.len() > 0 {
        let last = a.last();
        let n = a.len() - 1;
        assert(a[n] == last);
        assert(a.to_multiset().count(last) > 0);
        assert(b.contains(last));
        let k = choose|k: int| 0 <= k < b.len() && b[k] == last;
        assert(a.remove(n) =~= a.drop_last());
        lemma_positions_kept(a.drop_last(), b.remove(k));
        assert(positions(a) =~= positions(a.drop_last()).insert(n, positions(a)[n]));
        assert(positions(b) =~= positions(b.remove(k)).insert(k, positions(b)[k]));
    } else {
        assert(positions(a) =~= positions(b));
    }
}

proof fn lemma_same_arguments(a: Seq<ParamView>, b: Seq<ParamView>)
    requires
        a.len() == b.len(),
        forall|i: int|
            0 <= i < a.len() ==> positional_argument(#[trigger] a[i]) == positional_argument(b[i]),
    ensures
        positional_arguments(a) == positional_arguments(b),
    decreases a.len(),
{
    if a.len() > 0 {
        assert forall|i: int| 0 <= i < a.drop_last().len() implies positional_argument(
            #[trigger] a.drop_last()[i],
        ) == positional_argument(b.drop_last()[i]) by {
            assert(positional_argument(a[i]) == positional_argument(b[i]));
        }
        lemma_same_arguments(a.drop_last(), b.drop_last());
        assert(positional_argument(a[a.len() - 1]) == positional_argument(b[a.len() - 1]));
    }
}

proof fn lemma_is_among(params: Seq<ParamView>, p: ParamView)
    requires
        by_position(positionals(params)).contains(p),
    ensures
        is_positional(p),
        params.contains(p),
{
    broadcast use vstd::seq_lib::group_to_multiset_ensures;
    broadcast use vstd::multiset::group_multiset_axioms;

    let found = positionals(params);
    order::ordering_only_reorders(found, position_keys(found));
    lemma_positionals_kept(params);
    assert(by_position(found).to_multiset().count(p) > 0);
    assert(params.to_multiset().count(p) > 0);
}

/// The positions alone decide the order of a batch file's arguments: the same
/// controls in another order pass the same arguments, and make the same command
/// if they set the same environment variables in the same order. Controls that
/// share a position must pass the same argument, since their order counts.
pub proof fn order_of_controls_does_not_count(
    path: Seq<char>,
    a: Seq<ParamView>,
    b: Seq<ParamView>,
)
    requires
        a.to_multiset() == b.to_multiset(),
        positions_agree(a),
    ensures
        positional_arguments(by_position(positionals(a))) == positional_arguments(
            by_position(positionals(b)),
        ),
        env_prefix(a) == env_prefix(b) ==> command(path, true, a) == command(path, true, b),
{
    broadcast use vstd::seq_lib::group_to_multiset_ensures;

    let x = by_position(positionals(a));
    let y = by_position(positionals(b));
    let leq = |m: int, n: int| m <= n;
    lemma_positionals_kept(a);
    lemma_positionals_kept(b);
    order::ordering_only_reorders(positionals(a), position_keys(positionals(a)));
    order::ordering_only_reorders(positionals(b), position_keys(positionals(b)));
    lemma_positions_kept(x, y);
    batch_arguments_are_in_order(a);
    batch_arguments_are_in_order(b);
    assert forall|i: int, j: int| 0 <= i < j < x.len() implies #[trigger] leq(
        positions(x)[i],
        positions(x)[j],
    ) by {
        assert(x[i].position->Some_0 <= x[j].position->Some_0);
    }
    assert forall|i: int, j: int| 0 <= i < j < y.len() implies #[trigger] leq(
        positions(y)[i],
        positions(y)[j],
    ) by {
        assert(y[i].position->Some_0 <= y[j].position->Some_0);
    }
    vstd::seq_lib::lemma_sorted_unique(positions(x), positions(y), leq);
    assert(positions(x).len() == x.len() && positions(y).len() == y.len());
    assert forall|i: int| 0 <= i < x.len() implies positional_argument(#[trigger] x[i])
        == positional_argument(y[i]) by {
        assert(x.contains(x[i]) && y.contains(y[i]));
        lemma_is_among(a, x[i]);
        lemma_is_among(b, y[i]);
        assert(b.to_multiset().count(y[i]) > 0);
        assert(a.contains(y[i]));
        assert(positions(x)[i] == positions(y)[i]);
        let m = choose|m: int| 0 <= m < a.len() && a[m] == x[i];
        let n = choose|n: int| 0 <= n < a.len() && a[n] == y[i];
        assert(is_positional(a[m]) && is_positional(a[n]) && a[m].position == a[n].position);
    }
    lemma_same_arguments(x, y);
}

/// A control contributes to a command in at most one way: a control that sets an
/// environment variable passes no argument, and one that is passed by position
/// is not passed by name.
pub proof fn controls_contribute_once(p: ParamView)
    ensures
        p.as_env ==> named_argument(p).len() == 0 && !is_positional(p),
        !p.as_env ==> env_assignment(p).len() == 0,
        is_positional(p) ==> named_argument(p).len() == 0,
{
}

/// What a control is bound to is where its value goes: to the position, to the
/// environment variable, or to the argument of that name.
pub proof fn bindings_reach_the_command(p: ParamView, b: BoundView)
    ensures
        ({
            let q = controls::bound_to(p, b);
            match b {
                BoundView::Positional(n) => is_positional(q) && q.position == Some(n)
                    && positional_argument(q) == positional_argument(p),
                BoundView::Env(name) => env_value(q) == env_value(p) && (env_value(p).len() > 0
                    ==> env_assignment(q) == "$env:"@ + name + " = "@ + quoted(env_value(p))
                    + "; "@),
                BoundView::Named(name) => p.kind != ParamKind::Bool && !text::is_blank(p.value)
                    ==> named_argument(q) == " -"@ + name + " "@ + quoted(text::trimmed(p.value)),
            }
        }),
{
}

/// A control without a value leaves no trace in the command of a script that
/// takes its arguments by name: a blank text, or a switch that is off.
pub proof fn empty_controls_leave_no_trace(p: ParamView)
    requires
        p.kind == ParamKind::Bool ==> p.is_switch && !p.bool_value && !p.as_env,
        p.kind != ParamKind::Bool ==> text::is_blank(p.value),
    ensures
        named_argument(p).len() == 0,
        env_assignment(p).len() == 0,
{
}

proof fn lemma_positionals_none(params: Seq<ParamView>)
    requires
        forall|i: int| 0 <= i < params.len() ==> !is_positional(#[trigger] params[i]),
    ensures
        positionals(params).len() == 0,
    decreases params.len(),
{
    if params.len() > 0 {
        lemma_positionals_none(params.drop_last());
        assert(!is_positional(params[params.len() - 1]));
    }
}

proof fn lemma_contributions(params: Seq<ParamView>)
    requires
        forall|i: int|
            0 <= i < params.len() ==> env_assignment(#[trigger] params[i]).len() == 0
                && named_argument(params[i]).len() == 0,
    ensures
        env_prefix(params).len() == 0,
        named_arguments(params).len() == 0,
    decreases params.len(),
{
    if params.len() > 0 {
        lemma_contributions(params.drop_last());
        assert(env_assignment(params[params.len() - 1]).len() == 0);
    }
}

/// A script none of whose controls contributes anything is just called.
pub proof fn bare_call(path: Seq<char>, is_batch: bool, params: Seq<ParamView>)
    requires
        forall|i: int|
            0 <= i < params.len() ==> env_assignment(#[trigger] params[i]).len() == 0
                && named_argument(params[i]).len() == 0 && !is_positional(params[i]),
    ensures
        command(path, is_batch, params) == "& "@ + quoted(path),
{
    lemma_contributions(params);
    lemma_positionals_none(params);
    let none = Seq::<ParamView>::empty();
    assert(positionals(params) =~= none);
    assert(position_keys(none) =~= Seq::empty());
    assert(by_position(none) =~= none);
    assert(command(path, is_batch, params) =~= "& "@ + quoted(path));
}

// ---------------------------------------------------------------------------
// Required values
// ---------------------------------------------------------------------------

/// Whether a control still lacks a value that is required.
pub open spec fn is_missing(p: ParamView) -> bool {
    p.required && p.kind != ParamKind::Bool && text::is_blank(p.value)
}

/// The labels of the controls that still lack a required value.
pub open spec fn missing_labels(params: Seq<ParamView>) -> Seq<Seq<char>>
    decreases params.len(),
{
    if params.len() == 0 {
        Seq::empty()
    } else {
        let before = missing_labels(params.drop_last());
        if is_missing(params.last()) {
            before.push(params.last().label)
        } else {
            before
        }
    }
}

/// The labels of the controls that still lack a required value.
pub fn missing(params: &Vec<Param>) -> (r: Vec<String>)
    ensures
        text::texts(r@) == missing_labels(model::params_view(params@)),
{
    let ghost views = model::params_view(params@);
    let mut out: Vec<String> = Vec::new();
    let mut i: usize = 0;
    assert(views.subrange(0, 0) =~= Seq::empty());
    assert(text::texts(out@) =~= Seq::empty());
    while i < params.len()
        invariant
            i <= params.len(),
            views == model::params_view(params@),
            text::texts(out@) == missing_labels(views.subrange(0, i as int)),
        decreases params.len() - i,
    {
        assert(views.subrange(0, i + 1).drop_last() =~= views.subrange(0, i as int));
        assert(views.subrange(0, i + 1).last() == params@[i as int]@);
        let p = &params[i];
        if p.required && p.kind != ParamKind::Bool && text::blank(p.value.as_str()) {
            let label = p.label.clone();
            let ghost so_far = out@;
            out.push(label);
            assert(text::texts(out@) =~= text::texts(so_far).push(label@));
        }
        i += 1;
    }
    assert(views.subrange(0, i as int) =~= views);
    out
}

/// Nothing is missing exactly when every required control other than a checkbox
/// has a value that is not blank.
pub proof fn nothing_is_missing(params: Seq<ParamView>)
    ensures
        missing_labels(params).len() == 0 <==> forall|i: int|
            0 <= i < params.len() ==> !is_missing(#[trigger] params[i]),
    decreases params.len(),
{
    if params.len() > 0 {
        let front = params.drop_last();
        nothing_is_missing(front);
        assert(params[params.len() - 1] == params.last());
        assert(forall|i: int| 0 <= i < front.len() ==> #[trigger] front[i] == params[i]);
        if forall|i: int| 0 <= i < front.len() ==> !is_missing(#[trigger] front[i]) {
            assert forall|i: int| 0 <= i < params.len() && is_missing(#[trigger] params[i]) implies i
                == params.len() - 1 by {
                if i < front.len() {
                    assert(!is_missing(front[i]));
                }
            }
        } else {
            let i = choose|i: int| 0 <= i < front.len() && is_missing(#[trigger] front[i]);
            assert(is_missing(params[i]));
        }
    }
}

// ---------------------------------------------------------------------------
// What a command says of each control
// ---------------------------------------------------------------------------

/// Quoting puts a single quote at each end, doubles each single quote in between,
/// and keeps every other character.
pub proof fn quoting_doubles_quotes(value: Seq<char>, c: char)
    ensures
        quoted(Seq::empty()) == seq!['\'', '\''],
        quoted(value).len() >= 2,
        c != '\'' ==> quoted(value.push(c)) == quoted(value).subrange(
            0,
            quoted(value).len() - 1,
        ) + seq![c, '\''],
        c == '\'' ==> quoted(value.push(c)) == quoted(value).subrange(
            0,
            quoted(value).len() - 1,
        ) + seq!['\'', '\'', '\''],
{
    assert(quoted(Seq::empty()) =~= seq!['\'', '\'']);
    lemma_doubled_push(value, c);
    let front = quoted(value).subrange(0, quoted(value).len() - 1);
    assert(front =~= seq!['\''] + doubled(value));
    if c == '\'' {
        assert(quoted(value.push(c)) =~= front + seq!['\'', '\'', '\'']);
    } else {
        assert(quoted(value.push(c)) =~= front + seq![c, '\'']);
    }
}

proof fn lemma_doubled_push(value: Seq<char>, c: char)
    ensures
        doubled(value.push(c)) == doubled(value) + (if c == '\'' {
            seq!['\'', '\'']
        } else {
            seq![c]
        }),
    decreases value.len(),
{
    let s = value.push(c);
    if value.len() > 0 {
        lemma_doubled_push(value.drop_first(), c);
        assert(s.drop_first() =~= value.drop_first().push(c));
        assert(doubled(s) =~= doubled(value) + (if c == '\'' {
            seq!['\'', '\'']
        } else {
            seq![c]
        }));
    } else {
        assert(s.drop_first() =~= Seq::empty());
        reveal_with_fuel(doubled, 2);
        assert(doubled(s) =~= doubled(value) + (if c == '\'' {
            seq!['\'', '\'']
        } else {
            seq![c]
        }));
    }
}

/// A call without controls names the script alone, behind the call operator.
pub proof fn calls_name_the_script(path: Seq<char>, is_batch: bool)
    ensures
        command(path, is_batch, Seq::empty()) == seq!['&', ' '] + quoted(path),
{
    let none = Seq::<ParamView>::empty();
    bare_call(path, is_batch, none);
    reveal_strlit("& ");
    assert("& "@ =~= seq!['&', ' ']);
}

proof fn lemma_env_prefix_first(p: ParamView, rest: Seq<ParamView>)
    ensures
        env_prefix(seq![p] + rest) == env_assignment(p) + env_prefix(rest),
    decreases rest.len(),
{
    let all = seq![p] + rest;
    if rest.len() > 0 {
        lemma_env_prefix_first(p, rest.drop_last());
        assert(all.drop_last() =~= seq![p] + rest.drop_last());
        assert(all.last() == rest.last());
        assert(env_prefix(all) =~= env_assignment(p) + env_prefix(rest));
    } else {
        assert(all.drop_last() =~= Seq::empty());
        assert(all.last() == p);
        reveal_with_fuel(env_prefix, 2);
        assert(env_prefix(all) =~= env_assignment(p) + env_prefix(rest));
    }
}

proof fn lemma_not_positional_first(p: ParamView, rest: Seq<ParamView>)
    requires
        !is_positional(p),
    ensures
        positionals(seq![p] + rest) == positionals(rest),
    decreases rest.len(),
{
    let all = seq![p] + rest;
    if rest.len() > 0 {
        lemma_not_positional_first(p, rest.drop_last());
        assert(all.drop_last() =~= seq![p] + rest.drop_last());
        assert(all.last() == rest.last());
    } else {
        assert(all.drop_last() =~= Seq::empty());
        assert(all.last() == p);
        reveal_with_fuel(positionals, 2);
        assert(positionals(all) =~= positionals(rest));
    }
}

proof fn lemma_named_first(p: ParamView, rest: Seq<ParamView>)
    ensures
        named_arguments(seq![p] + rest) == named_argument(p) + named_arguments(rest),
    decreases rest.len(),
{
    let all = seq![p] + rest;
    if rest.len() > 0 {
        lemma_named_first(p, rest.drop_last());
        assert(all.drop_last() =~= seq![p] + rest.drop_last());
        assert(all.last() == rest.last());
        assert(named_arguments(all) =~= named_argument(p) + named_arguments(rest));
    } else {
        assert(all.drop_last() =~= Seq::empty());
        assert(all.last() == p);
        reveal_with_fuel(named_arguments, 2);
        assert(named_arguments(all) =~= named_argument(p) + named_arguments(rest));
    }
}

/// A control bound to an environment variable sets it before everything else, for
/// scripts of either kind, and does nothing more: a ticked checkbox sets `true`
/// and one that is not ticked `false`, and any other control sets its value
/// without the white space around it, or nothing if the value is all white space.
pub proof fn environment_is_set_first(
    path: Seq<char>,
    is_batch: bool,
    p: ParamView,
    rest: Seq<ParamView>,
)
    requires
        p.as_env,
    ensures
        p.kind == ParamKind::Bool && p.bool_value ==> command(path, is_batch, seq![p] + rest)
            == "$env:"@ + p.name + " = 'true'; "@ + command(path, is_batch, rest),
        p.kind == ParamKind::Bool && !p.bool_value ==> command(path, is_batch, seq![p] + rest)
            == "$env:"@ + p.name + " = 'false'; "@ + command(path, is_batch, rest),
        p.kind != ParamKind::Bool && text::trimmed(p.value).len() > 0 ==> command(
            path,
            is_batch,
            seq![p] + rest,
        ) == "$env:"@ + p.name + " = "@ + quoted(text::trimmed(p.value)) + "; "@ + command(
            path,
            is_batch,
            rest,
        ),
        p.kind != ParamKind::Bool && (forall|k: int|
            0 <= k < p.value.len() ==> text::is_space(#[trigger] p.value[k])) ==> command(
            path,
            is_batch,
            seq![p] + rest,
        ) == command(path, is_batch, rest),
{
    lemma_env_prefix_first(p, rest);
    lemma_named_first(p, rest);
    lemma_not_positional_first(p, rest);
    text::blank_means_white_space(p.value);
    let all = command(path, is_batch, seq![p] + rest);
    assert(all =~= env_assignment(p) + command(path, is_batch, rest));
    reveal_strlit("true");
    reveal_strlit("false");
    reveal_strlit(" = ");
    reveal_strlit("; ");
    reveal_strlit(" = 'true'; ");
    reveal_strlit(" = 'false'; ");
    reveal_strlit("$env:");
    if p.kind == ParamKind::Bool {
        lemma_plain_quoted("true"@);
        lemma_plain_quoted("false"@);
        assert(" = "@ + quoted("true"@) + "; "@ =~= " = 'true'; "@);
        assert(" = "@ + quoted("false"@) + "; "@ =~= " = 'false'; "@);
        if p.bool_value {
            assert(env_assignment(p) =~= "$env:"@ + p.name + " = 'true'; "@);
        } else {
            assert(env_assignment(p) =~= "$env:"@ + p.name + " = 'false'; "@);
        }
    }
    assert(Seq::<char>::empty() + command(path, is_batch, rest) =~= command(path, is_batch, rest));
}

proof fn lemma_plain_quoted(value: Seq<char>)
    requires
        forall|k: int| 0 <= k < value.len() ==> #[trigger] value[k] != '\'',
    ensures
        quoted(value) == seq!['\''] + value + seq!['\''],
    decreases value.len(),
{
    if value.len() > 0 {
        let front = value.drop_last();
        assert forall|k: int| 0 <= k < front.len() implies #[trigger] front[k] != '\'' by {
            assert(value[k] != '\'');
        }
        lemma_plain_quoted(front);
        quoting_doubles_quotes(front, value.last());
        assert(front.push(value.last()) =~= value);
        assert(value[value.len() - 1] != '\'');
        assert(quoted(value) =~= seq!['\''] + value + seq!['\'']);
    } else {
        quoting_doubles_quotes(value, 'a');
        assert(value =~= Seq::empty());
        assert(quoted(value) =~= seq!['\''] + value + seq!['\'']);
    }
}

/// A control of a PowerShell script that is bound to no position and no environment
/// variable is passed by its name, behind the controls before it: a ticked switch
/// by the name alone and one that is not ticked not at all, a boolean as `$true` or
/// `$false`, and any other control with its value without the white space around
/// it, or not at all if the value is all white space.
pub proof fn values_are_passed_by_name(path: Seq<char>, params: Seq<ParamView>, p: ParamView)
    requires
        !p.as_env,
        p.position is None,
    ensures
        p.kind == ParamKind::Bool && p.is_switch && p.bool_value ==> command(
            path,
            false,
            params.push(p),
        ) == command(path, false, params) + " -"@ + p.name,
        p.kind == ParamKind::Bool && p.is_switch && !p.bool_value ==> command(
            path,
            false,
            params.push(p),
        ) == command(path, false, params),
        p.kind == ParamKind::Bool && !p.is_switch && p.bool_value ==> command(
            path,
            false,
            params.push(p),
        ) == command(path, false, params) + " -"@ + p.name + ":$true"@,
        p.kind == ParamKind::Bool && !p.is_switch && !p.bool_value ==> command(
            path,
            false,
            params.push(p),
        ) == command(path, false, params) + " -"@ + p.name + ":$false"@,
        p.kind != ParamKind::Bool && text::trimmed(p.value).len() > 0 ==> command(
            path,
            false,
            params.push(p),
        ) == command(path, false, params) + " -"@ + p.name + " "@ + quoted(text::trimmed(p.value)),
        p.kind != ParamKind::Bool && (forall|k: int|
            0 <= k < p.value.len() ==> text::is_space(#[trigger] p.value[k])) ==> command(
            path,
            false,
            params.push(p),
        ) == command(path, false, params),
{
    let all = params.push(p);
    let before = command(path, false, params);
    assert(all.drop_last() =~= params);
    text::blank_means_white_space(p.value);
    reveal_strlit("true");
    reveal_strlit("false");
    reveal_strlit(":$");
    reveal_strlit(":$true");
    reveal_strlit(":$false");
    assert(":$"@ + "true"@ =~= ":$true"@);
    assert(":$"@ + "false"@ =~= ":$false"@);
    assert(env_prefix(all) =~= env_prefix(params));
    assert(command(path, false, all) =~= before + named_argument(p));
    if p.kind == ParamKind::Bool {
        if p.is_switch {
            assert(p.bool_value ==> command(path, false, all) =~= before + " -"@ + p.name);
        } else if p.bool_value {
            assert(command(path, false, all) =~= before + " -"@ + p.name + ":$true"@);
        } else {
            assert(command(path, false, all) =~= before + " -"@ + p.name + ":$false"@);
        }
    } else if text::trimmed(p.value).len() > 0 {
        assert(command(path, false, all) =~= before + " -"@ + p.name + " "@ + quoted(
            text::trimmed(p.value),
        ));
    }
    assert(before + Seq::<char>::empty() =~= before);
}

/// A control that is bound to a position and to no environment variable is not
/// passed to a PowerShell script, and one that is bound to neither is not passed
/// to a batch file.
pub proof fn other_bindings_are_not_passed(path: Seq<char>, params: Seq<ParamView>, p: ParamView)
    requires
        !p.as_env,
    ensures
        p.position is Some ==> command(path, false, params.push(p)) == command(path, false, params),
        p.position is None ==> command(path, true, params.push(p)) == command(path, true, params),
{
    let all = params.push(p);
    assert(all.drop_last() =~= params);
    assert(env_prefix(all) =~= env_prefix(params));
    assert(p.position is Some ==> named_arguments(all) =~= named_arguments(params));
}

proof fn lemma_highest_comes_last(found: Seq<ParamView>, p: ParamView)
    requires
        forall|i: int|
            0 <= i < found.len() ==> (#[trigger] found[i]).position->Some_0 <= p.position->Some_0,
    ensures
        by_position(found.push(p)) == by_position(found).push(p),
{
    let all = found.push(p);
    let n = found.len() as int;
    let keys = position_keys(found);
    let more = position_keys(all);
    order::order_is_stable(keys);
    lemma_order_depends_on_keys(keys, more, n);
    let before = order::order_of(keys, n);
    let last = before.last();
    if before.len() > 0 {
        assert(0 <= before[before.len() - 1] < n);
        assert(found[last].position->Some_0 <= p.position->Some_0);
        assert(more[last] == (found[last].position->Some_0 as int, 0int));
        assert(!order::key_less(more[n], more[last]));
    }
    assert(order::stable_order(more) == before.push(n));
    assert forall|i: int| 0 <= i < before.len() implies all[#[trigger] before[i]]
        == found[before[i]] by {
        assert(0 <= before[i] < n);
    }
    assert(by_position(all) =~= by_position(found).push(p));
}

proof fn lemma_with_item_depends_on_keys(
    a: Seq<(int, int)>,
    b: Seq<(int, int)>,
    order: Seq<int>,
    x: int,
    n: int,
)
    requires
        n <= a.len(),
        n <= b.len(),
        0 <= x < n,
        forall|i: int| 0 <= i < n ==> a[i] == b[i],
        forall|i: int| 0 <= i < order.len() ==> 0 <= #[trigger] order[i] < n,
    ensures
        order::with_item(a, order, x) == order::with_item(b, order, x),
    decreases order.len(),
{
    if order.len() > 0 {
        assert(0 <= order[order.len() - 1] < n);
        lemma_with_item_depends_on_keys(a, b, order.drop_last(), x, n);
    }
}

proof fn lemma_order_depends_on_keys(a: Seq<(int, int)>, b: Seq<(int, int)>, n: int)
    requires
        0 <= n <= a.len(),
        n <= b.len(),
        forall|i: int| 0 <= i < n ==> a[i] == b[i],
    ensures
        order::order_of(a, n) == order::order_of(b, n),
    decreases n,
{
    if n > 0 {
        lemma_order_depends_on_keys(a, b, n - 1);
        lemma_order_within(a, n - 1);
        lemma_with_item_depends_on_keys(a, b, order::order_of(a, n - 1), n - 1, n);
    }
}

proof fn lemma_order_within(keys: Seq<(int, int)>, n: int)
    requires
        0 <= n <= keys.len(),
    ensures
        forall|i: int|
            0 <= i < order::order_of(keys, n).len() ==> 0 <= #[trigger] order::order_of(keys, n)[i]
                < n,
    decreases n,
{
    if n > 0 {
        lemma_order_within(keys, n - 1);
        lemma_item_within(keys, order::order_of(keys, n - 1), n - 1, n);
    }
}

proof fn lemma_item_within(keys: Seq<(int, int)>, order: Seq<int>, x: int, n: int)
    requires
        0 <= x < n,
        forall|i: int| 0 <= i < order.len() ==> 0 <= #[trigger] order[i] < n,
    ensures
        forall|i: int|
            0 <= i < order::with_item(keys, order, x).len() ==> 0
                <= #[trigger] order::with_item(keys, order, x)[i] < n,
    decreases order.len(),
{
    if order.len() > 0 {
        let front = order.drop_last();
        let inner = order::with_item(keys, front, x);
        let all = order::with_item(keys, order, x);
        assert(0 <= order[order.len() - 1] < n);
        lemma_item_within(keys, front, x, n);
        assert forall|i: int| 0 <= i < all.len() implies 0 <= #[trigger] all[i] < n by {
            if order::key_less(keys[x], keys[order.last()]) {
                if i < inner.len() {
                    assert(all[i] == inner[i]);
                }
            } else if i < order.len() {
                assert(all[i] == order[i]);
            }
        }
    }
}

proof fn lemma_positionals_are_among(params: Seq<ParamView>, i: int)
    requires
        0 <= i < positionals(params).len(),
    ensures
        params.contains(positionals(params)[i]),
        positionals(params)[i].position is Some,
        !positionals(params)[i].as_env,
    decreases params.len(),
{
    let before = positionals(params.drop_last());
    if i < before.len() {
        lemma_positionals_are_among(params.drop_last(), i);
        let k = choose|k: int|
            0 <= k < params.drop_last().len() && params.drop_last()[k] == before[i];
        assert(params[k] == positionals(params)[i]);
    } else {
        assert(params[params.len() - 1] == positionals(params)[i]);
    }
}

/// A control that is bound to a position and to no environment variable is passed
/// to a batch file as a quoted argument, without the white space around its value,
/// and also if the value is empty. Where no control has a higher position it is
/// the last argument.
pub proof fn values_are_passed_by_position(path: Seq<char>, params: Seq<ParamView>, p: ParamView)
    requires
        !p.as_env,
        p.position is Some,
        forall|i: int|
            0 <= i < params.len() && (#[trigger] params[i]).position is Some && !params[i].as_env
                ==> params[i].position->Some_0 <= p.position->Some_0,
    ensures
        command(path, true, params.push(p)) == command(path, true, params) + seq![' '] + quoted(
            text::trimmed(p.value),
        ),
{
    let all = params.push(p);
    let found = positionals(params);
    assert(all.drop_last() =~= params);
    assert(env_prefix(all) =~= env_prefix(params));
    assert(positionals(all) == found.push(p));
    assert forall|i: int| 0 <= i < found.len() implies (#[trigger] found[i]).position->Some_0
        <= p.position->Some_0 by {
        lemma_positionals_are_among(params, i);
        let k = choose|k: int| 0 <= k < params.len() && params[k] == found[i];
        assert(params[k].position is Some);
    }
    lemma_highest_comes_last(found, p);
    assert(by_position(found).push(p).drop_last() =~= by_position(found));
    reveal_strlit(" ");
    assert(" "@ =~= seq![' ']);
    assert(command(path, true, all) =~= command(path, true, params) + seq![' '] + quoted(
        text::trimmed(p.value),
    ));
}

/// The labels of missing values are those of the controls that are required, are no
/// checkbox, and whose value is all white space, in the order of the controls.
pub proof fn required_values_are_missed(params: Seq<ParamView>, p: ParamView)
    ensures
        missing_labels(Seq::empty()).len() == 0,
        p.required && p.kind != ParamKind::Bool && (forall|k: int|
            0 <= k < p.value.len() ==> text::is_space(#[trigger] p.value[k])) ==> missing_labels(
            params.push(p),
        ) == missing_labels(params).push(p.label),
        !p.required || p.kind == ParamKind::Bool || (exists|k: int|
            0 <= k < p.value.len() && !text::is_space(#[trigger] p.value[k])) ==> missing_labels(
            params.push(p),
        ) == missing_labels(params),
{
    assert(params.push(p).drop_last() =~= params);
    text::blank_means_white_space(p.value);
}

/// Nothing is missing exactly when each required control, be it for a text, a file,
/// a folder, a number or a choice, has a character in its value that is no white
/// space. A checkbox always has a value.
pub proof fn required_values_are_filled_in(params: Seq<ParamView>)
    ensures
        missing_labels(params).len() == 0 <==> forall|i: int|
            0 <= i < params.len() && (#[trigger] params[i]).required && (params[i].kind
                == ParamKind::Text || params[i].kind == ParamKind::FilePath || params[i].kind
                == ParamKind::FolderPath || params[i].kind == ParamKind::Number || params[i].kind
                == ParamKind::Choice) ==> exists|k: int|
                0 <= k < params[i].value.len() && !text::is_space(#[trigger] params[i].value[k]),
{
    nothing_is_missing(params);
    assert forall|i: int| 0 <= i < params.len() implies is_missing(#[trigger] params[i]) == (
    params[i].required && params[i].kind != ParamKind::Bool && !exists|k: int|
        0 <= k < params[i].value.len() && !text::is_space(#[trigger] params[i].value[k])) by {
        text::blank_means_white_space(params[i].value);
    }
}

/// A command sets the environment variables, in the order of their controls, then
/// calls the script, and then passes the arguments. A control that is bound to no
/// environment variable sets none, wherever it stands.
pub proof fn commands_have_three_parts(
    path: Seq<char>,
    params: Seq<ParamView>,
    p: ParamView,
)
    ensures
        command(path, false, params) == env_prefix(params) + seq!['&', ' '] + quoted(path)
            + named_arguments(params),
        command(path, true, params) == env_prefix(params) + seq!['&', ' '] + quoted(path)
            + positional_arguments(by_position(positionals(params))),
        env_prefix(Seq::empty()).len() == 0,
        !p.as_env ==> env_prefix(params.push(p)) == env_prefix(params),
        p.as_env && p.kind == ParamKind::Bool && p.bool_value ==> env_prefix(params.push(p))
            == env_prefix(params) + ("$env:"@ + p.name + " = 'true'; "@),
        p.as_env && p.kind == ParamKind::Bool && !p.bool_value ==> env_prefix(params.push(p))
            == env_prefix(params) + ("$env:"@ + p.name + " = 'false'; "@),
        p.as_env && p.kind != ParamKind::Bool && text::trimmed(p.value).len() > 0 ==> env_prefix(
            params.push(p),
        ) == env_prefix(params) + ("$env:"@ + p.name + " = "@ + quoted(text::trimmed(p.value))
            + "; "@),
        p.as_env && p.kind != ParamKind::Bool && text::trimmed(p.value).len() == 0 ==> env_prefix(
            params.push(p),
        ) == env_prefix(params),
        p.as_env ==> named_arguments(params.push(p)) == named_arguments(params) && positionals(
            params.push(p),
        ) == positionals(params),
{
    let before = env_prefix(params);
    assert(params.push(p).drop_last() =~= params);
    reveal_strlit("& ");
    assert("& "@ =~= seq!['&', ' ']);
    assert(before + Seq::<char>::empty() =~= before);
    assert(named_arguments(params) + Seq::<char>::empty() =~= named_arguments(params));
    reveal_strlit("true");
    reveal_strlit("false");
    reveal_strlit(" = ");
    reveal_strlit("; ");
    reveal_strlit(" = 'true'; ");
    reveal_strlit(" = 'false'; ");
    lemma_plain_quoted("true"@);
    lemma_plain_quoted("false"@);
    assert(" = "@ + quoted("true"@) + "; "@ =~= " = 'true'; "@);
    assert(" = "@ + quoted("false"@) + "; "@ =~= " = 'false'; "@);
    if p.as_env && p.kind == ParamKind::Bool {
        if p.bool_value {
            assert(env_assignment(p) =~= "$env:"@ + p.name + " = 'true'; "@);
        } else {
            assert(env_assignment(p) =~= "$env:"@ + p.name + " = 'false'; "@);
        }
    }
}

} // verus!
