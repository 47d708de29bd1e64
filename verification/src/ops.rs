//! The planner and the executor's validation step.
//!
//! For one source/target pair the planner produces an ordered list of
//! operations, or an error, from a snapshot of the filesystem.  It never
//! touches the disk: `excute` validates a plan and hands back the
//! operations that actually mutate the filesystem, in order, for the
//! caller to apply.

use vstd::prelude::*;

use crate::fsmodel::FsNode;
use crate::paths::{
    diff_of, ends_with_enc, enc_suffix, join, parent_of, relative_path, spec_ends_with, spec_join,
    spec_parent,
};

verus! {

/// One planned filesystem operation.
#[derive(Debug, Clone, PartialEq)]
pub enum Op {
    /// Create this directory and its missing ancestors.
    Mkdirp(String),
    /// Create a symlink at the second path, pointing at the third
    /// (relative) path, so that it resolves to the first path.
    Symlink(String, String, String),
    /// The target already links to the source; nothing to do.
    Existed(String),
    /// The target is occupied by unrelated content.
    Conflict(String),
}

/// The mathematical value of an [`Op`].
pub enum OpView {
    Mkdirp(Seq<char>),
    Symlink(Seq<char>, Seq<char>, Seq<char>),
    Existed(Seq<char>),
    Conflict(Seq<char>),
}

impl View for Op {
    type V = OpView;

    open spec fn view(&self) -> OpView {
        match self {
            Op::Mkdirp(p) => OpView::Mkdirp(p@),
            Op::Symlink(f, t, r) => OpView::Symlink(f@, t@, r@),
            Op::Existed(p) => OpView::Existed(p@),
            Op::Conflict(p) => OpView::Conflict(p@),
        }
    }
}

/// The values of a sequence of operations.
pub open spec fn ops_view(s: Seq<Op>) -> Seq<OpView> {
    Seq::new(s.len(), |i: int| s[i]@)
}

/// Why a plan could not be produced.
#[derive(Debug, Clone, PartialEq)]
pub enum PlanError {
    /// The target path has no parent directory.
    NoParent(String),
    /// No relative path leads from the target's parent to the source.
    NoRelativePath(String, String),
    /// The target exists as a directory but the source is not one.
    SourceNotDirectory(String),
}

/// The mathematical value of a [`PlanError`].
pub enum PlanErrorView {
    NoParent(Seq<char>),
    NoRelativePath(Seq<char>, Seq<char>),
    SourceNotDirectory(Seq<char>),
}

impl View for PlanError {
    type V = PlanErrorView;

    open spec fn view(&self) -> PlanErrorView {
        match self {
            PlanError::NoParent(p) => PlanErrorView::NoParent(p@),
            PlanError::NoRelativePath(f, t) => PlanErrorView::NoRelativePath(f@, t@),
            PlanError::SourceNotDirectory(f) => PlanErrorView::SourceNotDirectory(f@),
        }
    }
}

/// The first node among `cs` whose name reads `name`, if any.
pub open spec fn spec_lookup(cs: Seq<(String, FsNode)>, name: Seq<char>) -> Option<FsNode>
    decreases cs.len(),
{
    if cs.len() == 0 {
        None
    } else if cs[0].0@ == name {
        Some(cs[0].1)
    } else {
        spec_lookup(cs.drop_first(), name)
    }
}

/// The plan for linking a source file at `from` to an absent target `to`:
/// nothing when the source carries the reserved ciphertext suffix,
/// otherwise a symlink, preceded by a directory creation when the
/// target's parent is missing.
pub open spec fn plan_file_spec(from: Seq<char>, to: Seq<char>, to_parent_exists: bool) -> Result<
    Seq<OpView>,
    PlanErrorView,
> {
    if spec_ends_with(from, enc_suffix()) {
        Ok(Seq::empty())
    } else {
        match spec_parent(to) {
            None => Err(PlanErrorView::NoParent(to)),
            Some(par) => match diff_of(from, par) {
                None => Err(PlanErrorView::NoRelativePath(from, par)),
                Some(rel) => Ok(
                    (if to_parent_exists {
                        Seq::<OpView>::empty()
                    } else {
                        seq![OpView::Mkdirp(par)]
                    }) + seq![OpView::Symlink(from, to, rel)],
                ),
            },
        }
    }
}

/// The plan for one source/target pair, over a snapshot of both sides.
///
/// `tgt` is the node found at `to` without following symlinks, or `None`
/// when `to` does not exist; `to_parent_exists` says whether `to`'s
/// parent directory exists.  An existing symlink is compared by its
/// canonical resolution against `from`; an existing directory is merged
/// child by child; any other occupant is a conflict.
pub open spec fn plan_spec(
    from: Seq<char>,
    src: FsNode,
    to: Seq<char>,
    tgt: Option<FsNode>,
    to_parent_exists: bool,
) -> Result<Seq<OpView>, PlanErrorView>
    decreases src, 1int,
{
    match tgt {
        Some(t) => match t {
            FsNode::Link(res) => match res {
                None => Ok(seq![OpView::Conflict(to)]),
                Some(ct) => if ct@ == from {
                    Ok(seq![OpView::Existed(to)])
                } else {
                    Ok(seq![OpView::Conflict(to)])
                },
            },
            FsNode::Dir(tcs) => plan_dir_spec(from, src, to, Some(tcs@), to_parent_exists),
            FsNode::File => Ok(seq![OpView::Conflict(to)]),
        },
        None => match src {
            FsNode::Dir(_) => plan_dir_spec(from, src, to, None, to_parent_exists),
            _ => plan_file_spec(from, to, to_parent_exists),
        },
    }
}

/// The plan for a source directory: adopt the whole directory with one
/// symlink when the target is absent, or merge child by child when the
/// target exists as a directory (`tgt_children` are then its children).
pub open spec fn plan_dir_spec(
    from: Seq<char>,
    src: FsNode,
    to: Seq<char>,
    tgt_children: Option<Seq<(String, FsNode)>>,
    to_parent_exists: bool,
) -> Result<Seq<OpView>, PlanErrorView>
    decreases src, 0int,
{
    match spec_parent(to) {
        None => Err(PlanErrorView::NoParent(to)),
        Some(par) => match diff_of(from, par) {
            None => Err(PlanErrorView::NoRelativePath(from, par)),
            Some(rel) => match tgt_children {
                None => Ok(
                    (if to_parent_exists {
                        Seq::<OpView>::empty()
                    } else {
                        seq![OpView::Mkdirp(par)]
                    }) + seq![OpView::Symlink(from, to, rel)],
                ),
                Some(tcs) => match src {
                    FsNode::Dir(cs) => plan_children_spec(from, cs@, to, tcs, 0),
                    _ => Err(PlanErrorView::SourceNotDirectory(from)),
                },
            },
        },
    }
}

/// The concatenation of the plans for the source children from index `i`
/// on, each planned against the same-named child of the target directory;
/// the first child that cannot be planned aborts the merge.
pub open spec fn plan_children_spec(
    from: Seq<char>,
    cs: Seq<(String, FsNode)>,
    to: Seq<char>,
    tcs: Seq<(String, FsNode)>,
    i: int,
) -> Result<Seq<OpView>, PlanErrorView>
    decreases cs, cs.len() - i,
{
    if i < 0 || i >= cs.len() {
        Ok(Seq::empty())
    } else {
        match plan_spec(
            spec_join(from, cs[i].0@),
            cs[i].1,
            spec_join(to, cs[i].0@),
            spec_lookup(tcs, cs[i].0@),
            true,
        ) {
            Err(e) => Err(e),
            Ok(ops) => match plan_children_spec(from, cs, to, tcs, i + 1) {
                Err(e) => Err(e),
                Ok(rest) => Ok(ops + rest),
            },
        }
    }
}

/// The value behind an optional reference to a snapshot node.
pub open spec fn opt_node(tgt: Option<&FsNode>) -> Option<FsNode> {
    match tgt {
        Some(t) => Some(*t),
        None => None,
    }
}

/// The children behind an optional reference to a directory's child list.
pub open spec fn opt_children(tc: Option<&Vec<(String, FsNode)>>) -> Option<
    Seq<(String, FsNode)>,
> {
    match tc {
        Some(v) => Some(v@),
        None => None,
    }
}

/// `r` with `acc` prepended to its operations when it succeeded.
pub open spec fn result_prepend(acc: Seq<OpView>, r: Result<Seq<OpView>, PlanErrorView>) -> Result<
    Seq<OpView>,
    PlanErrorView,
> {
    match r {
        Ok(s) => Ok(acc + s),
        Err(e) => Err(e),
    }
}

proof fn lemma_lookup_skip(cs: Seq<(String, FsNode)>, name: Seq<char>, i: int)
    requires
        0 <= i <= cs.len(),
        forall|k: int| 0 <= k < i ==> cs[k].0@ != name,
    ensures
        spec_lookup(cs, name) == spec_lookup(cs.skip(i), name),
    decreases i,
{
    if i > 0 {
        assert(cs[0].0@ != name);
        assert forall|k: int| 0 <= k < i - 1 implies cs.drop_first()[k].0@ != name by {
            assert(cs.drop_first()[k] == cs[k + 1]);
        }
        lemma_lookup_skip(cs.drop_first(), name, i - 1);
        assert(cs.drop_first().skip(i - 1) =~= cs.skip(i));
    } else {
        assert(cs.skip(0) =~= cs);
    }
}

/// Finds the child of a target directory that carries the given name.
fn lookup_child<'a>(cs: &'a Vec<(String, FsNode)>, name: &String) -> (r: Option<&'a FsNode>)
    ensures
        r is Some <==> spec_lookup(cs@, name@) is Some,
        r is Some ==> *r->0 == spec_lookup(cs@, name@)->0,
{
    let n = cs.len();
    let mut i: usize = 0;
    while i < n
        invariant
            i <= n,
            n == cs@.len(),
            forall|k: int| 0 <= k < i ==> cs@[k].0@ != name@,
        decreases n - i,
    {
        if cs[i].0.eq(name) {
            proof {
                lemma_lookup_skip(cs@, name@, i as int);
                assert(cs@.skip(i as int)[0] == cs@[i as int]);
            }
            return Some(&cs[i].1);
        }
        i = i + 1;
    }
    proof {
        lemma_lookup_skip(cs@, name@, n as int);
        assert(cs@.skip(n as int) =~= Seq::<(String, FsNode)>::empty());
    }
    None
}

/// Plans the link for a source directory: wholesale adoption when the
/// target is absent, or a child-by-child merge when the target exists as
/// a directory.
#[verifier::loop_isolation(false)]
fn link_dir(
    from: &String,
    src: &FsNode,
    to: &String,
    tgt_children: Option<&Vec<(String, FsNode)>>,
    to_parent_exists: bool,
    result: &mut Vec<Op>,
) -> (r: Result<(), PlanError>)
    ensures
        match plan_dir_spec(from@, *src, to@, opt_children(tgt_children), to_parent_exists) {
            Ok(ops) => r is Ok && ops_view(final(result)@) == ops_view(old(result)@) + ops,
            Err(e) => r is Err && r->Err_0@ == e && final(result)@ == old(result)@,
        },
    decreases *src, 0int,
{
    let par = match parent_of(to) {
        Some(p) => p,
        None => {
            return Err(PlanError::NoParent(to.clone()));
        },
    };
    let rel = match relative_path(from, &par) {
        Ok(d) => d,
        Err(_) => {
            return Err(PlanError::NoRelativePath(from.clone(), par));
        },
    };
    match tgt_children {
        None => {
            let ghost old_ops = ops_view(result@);
            if !to_parent_exists {
                result.push(Op::Mkdirp(par.clone()));
            }
            result.push(Op::Symlink(from.clone(), to.clone(), rel));
            proof {
                let ops = plan_dir_spec(
                    from@,
                    *src,
                    to@,
                    opt_children(tgt_children),
                    to_parent_exists,
                )->Ok_0;
                assert(ops_view(result@) =~= old_ops + ops);
            }
            Ok(())
        },
        Some(tcs) => {
            match src {
                FsNode::Dir(cs) => {
                    let mut acc: Vec<Op> = Vec::new();
                    let n = cs.len();
                    let mut i: usize = 0;
                    proof {
                        assert(ops_view(acc@) =~= Seq::<OpView>::empty());
                        match plan_children_spec(from@, cs@, to@, tcs@, 0) {
                            Ok(s) => {
                                assert(Seq::<OpView>::empty() + s =~= s);
                            },
                            Err(_) => {},
                        }
                    }
                    while i < n
                        invariant
                            i <= n,
                            n == cs@.len(),
                            plan_children_spec(from@, cs@, to@, tcs@, 0) == result_prepend(
                                ops_view(acc@),
                                plan_children_spec(from@, cs@, to@, tcs@, i as int),
                            ),
                        decreases n - i,
                    {
                        let child_from = join(from, &cs[i].0);
                        let child_to = join(to, &cs[i].0);
                        let child_tgt = lookup_child(tcs, &cs[i].0);
                        let ghost pre = ops_view(acc@);
                        proof {
                            assert(opt_node(child_tgt) == spec_lookup(tcs@, cs@[i as int].0@));
                            assert(decreases_to!(*src => cs@[i as int].1));
                        }
                        match link_file_or_dir(&child_from, &cs[i].1, &child_to, child_tgt, true, &mut acc) {
                            Ok(_) => {
                                proof {
                                    let ops_i = plan_spec(
                                        spec_join(from@, cs@[i as int].0@),
                                        cs@[i as int].1,
                                        spec_join(to@, cs@[i as int].0@),
                                        spec_lookup(tcs@, cs@[i as int].0@),
                                        true,
                                    )->Ok_0;
                                    assert(ops_view(acc@) == pre + ops_i);
                                    match plan_children_spec(from@, cs@, to@, tcs@, i + 1) {
                                        Ok(rest) => {
                                            assert(pre + (ops_i + rest) =~= (pre + ops_i) + rest);
                                        },
                                        Err(_) => {},
                                    }
                                }
                            },
                            Err(e) => {
                                proof {
                                    assert(plan_children_spec(from@, cs@, to@, tcs@, i as int)
                                        == Err::<Seq<OpView>, PlanErrorView>(e@));
                                }
                                return Err(e);
                            },
                        }
                        i = i + 1;
                    }
                    proof {
                        assert(plan_children_spec(from@, cs@, to@, tcs@, n as int) == Ok::<
                            Seq<OpView>,
                            PlanErrorView,
                        >(Seq::<OpView>::empty()));
                        assert(ops_view(acc@) + Seq::<OpView>::empty() =~= ops_view(acc@));
                    }
                    let ghost old_ops = ops_view(result@);
                    let ghost acc_ops = ops_view(acc@);
                    result.append(&mut acc);
                    proof {
                        assert(ops_view(result@) =~= old_ops + acc_ops);
                    }
                    Ok(())
                },
                _ => Err(PlanError::SourceNotDirectory(from.clone())),
            }
        },
    }
}

/// Plans the link for one source/target pair against a snapshot of both
/// sides, appending the operations to `result`.
pub fn link_file_or_dir(
    from: &String,
    src: &FsNode,
    to: &String,
    tgt: Option<&FsNode>,
    to_parent_exists: bool,
    result: &mut Vec<Op>,
) -> (r: Result<(), PlanError>)
    ensures
        match plan_spec(from@, *src, to@, opt_node(tgt), to_parent_exists) {
            Ok(ops) => r is Ok && ops_view(final(result)@) == ops_view(old(result)@) + ops,
            Err(e) => r is Err && r->Err_0@ == e && final(result)@ == old(result)@,
        },
    decreases *src, 1int,
{
    match tgt {
        Some(t) => match t {
            FsNode::Link(res) => {
                let ghost old_ops = ops_view(result@);
                let op = match res {
                    Some(ct) => if ct.eq(from) {
                        Op::Existed(to.clone())
                    } else {
                        Op::Conflict(to.clone())
                    },
                    None => Op::Conflict(to.clone()),
                };
                let ghost opv = op@;
                result.push(op);
                proof {
                    assert(ops_view(result@) =~= old_ops + seq![opv]);
                }
                Ok(())
            },
            FsNode::Dir(tcs) => link_dir(from, src, to, Some(tcs), to_parent_exists, result),
            FsNode::File => {
                let ghost old_ops = ops_view(result@);
                result.push(Op::Conflict(to.clone()));
                proof {
                    assert(ops_view(result@) =~= old_ops + seq![OpView::Conflict(to@)]);
                }
                Ok(())
            },
        },
        None => match src {
            FsNode::Dir(_) => link_dir(from, src, to, None, to_parent_exists, result),
            _ => link_file(from, to, to_parent_exists, result),
        },
    }
}

/// Plans the link for a single source file against an absent target.
pub fn link_file(from: &String, to: &String, to_parent_exists: bool, res: &mut Vec<Op>) -> (r:
    Result<(), PlanError>)
    ensures
        match plan_file_spec(from@, to@, to_parent_exists) {
            Ok(ops) => r is Ok && ops_view(final(res)@) == ops_view(old(res)@) + ops,
            Err(e) => r is Err && r->Err_0@ == e && final(res)@ == old(res)@,
        },
{
    if ends_with_enc(from) {
        proof {
            assert(ops_view(res@) =~= ops_view(res@) + Seq::<OpView>::empty());
        }
        return Ok(());
    }
    let par = match parent_of(to) {
        Some(p) => p,
        None => {
            return Err(PlanError::NoParent(to.clone()));
        },
    };
    let rel = match relative_path(from, &par) {
        Ok(d) => d,
        Err(_) => {
            return Err(PlanError::NoRelativePath(from.clone(), par));
        },
    };
    let ghost old_ops = ops_view(res@);
    if !to_parent_exists {
        res.push(Op::Mkdirp(par.clone()));
    }
    res.push(Op::Symlink(from.clone(), to.clone(), rel));
    proof {
        let ops = plan_file_spec(from@, to@, to_parent_exists)->Ok_0;
        assert(ops_view(res@) =~= old_ops + ops);
    }
    Ok(())
}

/// Execution was refused because the plan contains conflicts.
#[derive(Debug, Clone, PartialEq)]
pub enum ExecError {
    /// The target paths whose occupants conflict with the plan, in plan
    /// order.
    Conflicts(Vec<String>),
}

/// The values of a sequence of strings.
pub open spec fn strings_view(s: Seq<String>) -> Seq<Seq<char>> {
    Seq::new(s.len(), |i: int| s[i]@)
}

/// Whether an operation mutates the filesystem when applied.
pub open spec fn is_action(op: OpView) -> bool {
    op is Mkdirp || op is Symlink
}

/// The target paths of all conflicts in a plan, in order.
pub open spec fn conflict_paths(ops: Seq<OpView>) -> Seq<Seq<char>>
    decreases ops.len(),
{
    if ops.len() == 0 {
        Seq::empty()
    } else {
        let rest = conflict_paths(ops.drop_first());
        match ops[0] {
            OpView::Conflict(p) => seq![p] + rest,
            _ => rest,
        }
    }
}

/// The operations of a plan that mutate the filesystem, in order.
pub open spec fn action_ops(ops: Seq<OpView>) -> Seq<OpView>
    decreases ops.len(),
{
    if ops.len() == 0 {
        Seq::empty()
    } else {
        let rest = action_ops(ops.drop_first());
        if is_action(ops[0]) {
            seq![ops[0]] + rest
        } else {
            rest
        }
    }
}

proof fn lemma_conflict_paths_push(ops: Seq<OpView>, op: OpView)
    ensures
        conflict_paths(ops.push(op)) == conflict_paths(ops) + (match op {
            OpView::Conflict(p) => seq![p],
            _ => Seq::<Seq<char>>::empty(),
        }),
    decreases ops.len(),
{
    let s = ops.push(op);
    let tail = (match op {
        OpView::Conflict(p) => seq![p],
        _ => Seq::<Seq<char>>::empty(),
    });
    if ops.len() == 0 {
        assert(s.drop_first() =~= Seq::<OpView>::empty());
        assert(conflict_paths(Seq::<OpView>::empty()) == Seq::<Seq<char>>::empty());
        assert(conflict_paths(s) =~= Seq::<Seq<char>>::empty() + tail);
    } else {
        assert(s.drop_first() =~= ops.drop_first().push(op));
        lemma_conflict_paths_push(ops.drop_first(), op);
        let cd = conflict_paths(ops.drop_first());
        match ops[0] {
            OpView::Conflict(p) => {
                assert(seq![p] + (cd + tail) =~= (seq![p] + cd) + tail);
            },
            _ => {},
        }
    }
}

proof fn lemma_action_ops_push(ops: Seq<OpView>, op: OpView)
    ensures
        action_ops(ops.push(op)) == action_ops(ops) + (if is_action(op) {
            seq![op]
        } else {
            Seq::<OpView>::empty()
        }),
    decreases ops.len(),
{
    let s = ops.push(op);
    let tail = (if is_action(op) {
        seq![op]
    } else {
        Seq::<OpView>::empty()
    });
    if ops.len() == 0 {
        assert(s.drop_first() =~= Seq::<OpView>::empty());
        assert(action_ops(Seq::<OpView>::empty()) == Seq::<OpView>::empty());
        assert(action_ops(s) =~= Seq::<OpView>::empty() + tail);
    } else {
        assert(s.drop_first() =~= ops.drop_first().push(op));
        lemma_action_ops_push(ops.drop_first(), op);
        let ad = action_ops(ops.drop_first());
        if is_action(ops[0]) {
            assert(seq![ops[0]] + (ad + tail) =~= (seq![ops[0]] + ad) + tail);
        }
    }
}

/// Validates a plan and returns the operations to apply.
///
/// Execution is all-or-nothing at plan granularity: if the plan holds
/// any conflict, the whole list of conflicting targets is reported and
/// nothing may be applied.  Otherwise the returned operations are
/// exactly the plan's filesystem mutations, in plan order; `Existed`
/// entries are informational and drop out.
#[verifier::loop_isolation(false)]
pub fn excute(ops: &Vec<Op>) -> (r: Result<Vec<Op>, ExecError>)
    ensures
        r is Err <==> conflict_paths(ops_view(ops@)).len() > 0,
        match r {
            Err(ExecError::Conflicts(cs)) => strings_view(cs@) == conflict_paths(ops_view(ops@)),
            Ok(acts) => ops_view(acts@) == action_ops(ops_view(ops@)),
        },
{
    let ghost ov = ops_view(ops@);
    let n = ops.len();
    let mut conflicts: Vec<String> = Vec::new();
    let mut i: usize = 0;
    proof {
        assert(strings_view(conflicts@) =~= Seq::<Seq<char>>::empty());
        assert(ov.take(0) =~= Seq::<OpView>::empty());
    }
    while i < n
        invariant
            i <= n,
            strings_view(conflicts@) == conflict_paths(ov.take(i as int)),
        decreases n - i,
    {
        let ghost pre = conflicts@;
        if let Op::Conflict(p) = &ops[i] {
            conflicts.push(p.clone());
        }
        proof {
            lemma_conflict_paths_push(ov.take(i as int), ov[i as int]);
            assert(ov.take(i as int).push(ov[i as int]) =~= ov.take(i + 1));
            match ov[i as int] {
                OpView::Conflict(q) => {
                    assert(strings_view(conflicts@) =~= strings_view(pre) + seq![q]);
                },
                _ => {
                    assert(strings_view(conflicts@) =~= strings_view(pre)
                        + Seq::<Seq<char>>::empty());
                },
            }
        }
        i = i + 1;
    }
    proof {
        assert(ov.take(n as int) =~= ov);
    }
    if conflicts.len() > 0 {
        proof {
            assert(conflict_paths(ov).len() == strings_view(conflicts@).len());
        }
        return Err(ExecError::Conflicts(conflicts));
    }
    proof {
        assert(conflict_paths(ov).len() == 0);
    }
    let mut acts: Vec<Op> = Vec::new();
    let mut j: usize = 0;
    proof {
        assert(ops_view(acts@) =~= Seq::<OpView>::empty());
    }
    while j < n
        invariant
            j <= n,
            ops_view(acts@) == action_ops(ov.take(j as int)),
        decreases n - j,
    {
        let ghost pre = acts@;
        match &ops[j] {
            Op::Mkdirp(p) => {
                acts.push(Op::Mkdirp(p.clone()));
            },
            Op::Symlink(f, t, rel) => {
                acts.push(Op::Symlink(f.clone(), t.clone(), rel.clone()));
            },
            _ => {},
        }
        proof {
            lemma_action_ops_push(ov.take(j as int), ov[j as int]);
            assert(ov.take(j as int).push(ov[j as int]) =~= ov.take(j + 1));
            if is_action(ov[j as int]) {
                assert(ops_view(acts@) =~= ops_view(pre) + seq![ov[j as int]]);
            } else {
                assert(ops_view(acts@) =~= ops_view(pre) + Seq::<OpView>::empty());
            }
        }
        j = j + 1;
    }
    proof {
        assert(ov.take(n as int) =~= ov);
    }
    Ok(acts)
}

/// Planning is idempotent: once the target is a symlink whose canonical
/// resolution is the source, re-planning the same pair yields exactly
/// one `Existed` operation, and executing that plan performs no
/// filesystem action.
pub proof fn lemma_plan_idempotent(
    from: Seq<char>,
    src: FsNode,
    to: Seq<char>,
    ct: String,
    to_parent_exists: bool,
)
    requires
        ct@ == from,
    ensures
        plan_spec(from, src, to, Some(FsNode::Link(Some(ct))), to_parent_exists) == Ok::<
            Seq<OpView>,
            PlanErrorView,
        >(seq![OpView::Existed(to)]),
        action_ops(seq![OpView::Existed(to)]) == Seq::<OpView>::empty(),
        conflict_paths(seq![OpView::Existed(to)]) == Seq::<Seq<char>>::empty(),
{
    assert(seq![OpView::Existed(to)].drop_first() =~= Seq::<OpView>::empty());
    assert(action_ops(Seq::<OpView>::empty()) == Seq::<OpView>::empty());
    assert(conflict_paths(Seq::<OpView>::empty()) == Seq::<Seq<char>>::empty());
}

/// A pre-existing regular file at the target always plans as a single
/// conflict, so execution refuses the plan and nothing is mutated.
pub proof fn lemma_conflict_on_foreign_file(
    from: Seq<char>,
    src: FsNode,
    to: Seq<char>,
    to_parent_exists: bool,
)
    ensures
        plan_spec(from, src, to, Some(FsNode::File), to_parent_exists) == Ok::<
            Seq<OpView>,
            PlanErrorView,
        >(seq![OpView::Conflict(to)]),
        conflict_paths(seq![OpView::Conflict(to)]) == seq![to],
{
    assert(seq![OpView::Conflict(to)].drop_first() =~= Seq::<OpView>::empty());
    assert(conflict_paths(Seq::<OpView>::empty()) == Seq::<Seq<char>>::empty());
    assert(seq![to] + Seq::<Seq<char>>::empty() =~= seq![to]);
}

/// A source directory is adopted wholesale when the target is absent:
/// the plan is exactly one symlink, preceded by one directory creation
/// only when the target's parent is missing — never per-child
/// operations.
pub proof fn lemma_whole_directory_adoption(
    from: Seq<char>,
    children: Vec<(String, FsNode)>,
    to: Seq<char>,
    to_parent_exists: bool,
)
    requires
        spec_parent(to) is Some,
        diff_of(from, spec_parent(to)->0) is Some,
    ensures
        ({
            let par = spec_parent(to)->0;
            let rel = diff_of(from, par)->0;
            plan_spec(from, FsNode::Dir(children), to, None, to_parent_exists) == Ok::<
                Seq<OpView>,
                PlanErrorView,
            >(
                if to_parent_exists {
                    seq![OpView::Symlink(from, to, rel)]
                } else {
                    seq![OpView::Mkdirp(par), OpView::Symlink(from, to, rel)]
                },
            )
        }),
{
    let par = spec_parent(to)->0;
    let rel = diff_of(from, par)->0;
    assert(Seq::<OpView>::empty() + seq![OpView::Symlink(from, to, rel)] =~= seq![
        OpView::Symlink(from, to, rel),
    ]);
    assert(seq![OpView::Mkdirp(par)] + seq![OpView::Symlink(from, to, rel)] =~= seq![
        OpView::Mkdirp(par),
        OpView::Symlink(from, to, rel),
    ]);
}

/// Merging into an existing target directory produces exactly the
/// concatenation of the children's own plans and no operation for the
/// directory itself.
pub proof fn lemma_directory_merge(
    from: Seq<char>,
    children: Vec<(String, FsNode)>,
    to: Seq<char>,
    tchildren: Vec<(String, FsNode)>,
    to_parent_exists: bool,
)
    requires
        spec_parent(to) is Some,
        diff_of(from, spec_parent(to)->0) is Some,
    ensures
        plan_spec(from, FsNode::Dir(children), to, Some(FsNode::Dir(tchildren)), to_parent_exists)
            == plan_children_spec(from, children@, to, tchildren@, 0),
{
}

/// One step of a directory merge: when everything plans successfully,
/// the plan for the children from `i` on is the `i`-th child's own
/// independent plan followed by the plan for the remaining children.
pub proof fn lemma_merge_child_step(
    from: Seq<char>,
    cs: Seq<(String, FsNode)>,
    to: Seq<char>,
    tcs: Seq<(String, FsNode)>,
    i: int,
)
    requires
        0 <= i < cs.len(),
        plan_spec(
            spec_join(from, cs[i].0@),
            cs[i].1,
            spec_join(to, cs[i].0@),
            spec_lookup(tcs, cs[i].0@),
            true,
        ) is Ok,
        plan_children_spec(from, cs, to, tcs, i + 1) is Ok,
    ensures
        plan_children_spec(from, cs, to, tcs, i) == Ok::<Seq<OpView>, PlanErrorView>(
            plan_spec(
                spec_join(from, cs[i].0@),
                cs[i].1,
                spec_join(to, cs[i].0@),
                spec_lookup(tcs, cs[i].0@),
                true,
            )->Ok_0 + plan_children_spec(from, cs, to, tcs, i + 1)->Ok_0,
        ),
{
}

proof fn lemma_join_len(a: Seq<char>, b: Seq<char>)
    ensures
        spec_join(a, b).len() >= a.len(),
        b.len() > 0 ==> spec_join(a, b).len() > a.len(),
{
}

/// Every symlink a plan emits targets the `to` path of the node that
/// planned it, so its target is never shorter than `to`.
proof fn lemma_plan_symlink_ge(
    from: Seq<char>,
    src: FsNode,
    to: Seq<char>,
    tgt: Option<FsNode>,
    to_parent_exists: bool,
)
    ensures
        plan_spec(from, src, to, tgt, to_parent_exists) matches Ok(ops) ==> forall|i: int|
            0 <= i < ops.len() ==> ((#[trigger] ops[i]) matches OpView::Symlink(f, t, r) ==> t.len()
                >= to.len()),
    decreases src, 1int,
{
    match tgt {
        Some(t) => match t {
            FsNode::Dir(_) => {
                lemma_dir_symlink_ge(from, src, to, tgt, to_parent_exists);
            },
            _ => {},
        },
        None => match src {
            FsNode::Dir(_) => {
                lemma_dir_symlink_ge(from, src, to, tgt, to_parent_exists);
            },
            _ => {},
        },
    }
}

/// The same bound for the directory cases, stated over [`plan_spec`]
/// itself so that the two directory branches share one proof.
proof fn lemma_dir_symlink_ge(
    from: Seq<char>,
    src: FsNode,
    to: Seq<char>,
    tgt: Option<FsNode>,
    to_parent_exists: bool,
)
    requires
        tgt matches Some(t) ==> t is Dir,
        tgt is None ==> src is Dir,
    ensures
        plan_spec(from, src, to, tgt, to_parent_exists) matches Ok(ops) ==> forall|i: int|
            0 <= i < ops.len() ==> ((#[trigger] ops[i]) matches OpView::Symlink(f, t, r) ==> t.len()
                >= to.len()),
    decreases src, 0int,
{
    match tgt {
        Some(FsNode::Dir(tcs)) => {
            match src {
                FsNode::Dir(cs) => {
                    lemma_children_symlink_ge(from, cs@, to, tcs@, 0);
                },
                _ => {},
            }
        },
        _ => {},
    }
}

/// The bound over a directory merge's children: each child is planned
/// against a `to` one component deeper, so its symlinks can only
/// target paths at least as long as the merge's own `to`.
proof fn lemma_children_symlink_ge(
    from: Seq<char>,
    cs: Seq<(String, FsNode)>,
    to: Seq<char>,
    tcs: Seq<(String, FsNode)>,
    i: int,
)
    ensures
        plan_children_spec(from, cs, to, tcs, i) matches Ok(ops) ==> forall|j: int|
            0 <= j < ops.len() ==> ((#[trigger] ops[j]) matches OpView::Symlink(f, t, r) ==> t.len()
                >= to.len()),
    decreases cs, cs.len() - i,
{
    if 0 <= i < cs.len() {
        let child_to = spec_join(to, cs[i].0@);
        lemma_join_len(to, cs[i].0@);
        lemma_plan_symlink_ge(
            spec_join(from, cs[i].0@),
            cs[i].1,
            child_to,
            spec_lookup(tcs, cs[i].0@),
            true,
        );
        lemma_children_symlink_ge(from, cs, to, tcs, i + 1);
        match plan_children_spec(from, cs, to, tcs, i) {
            Ok(ops) => {
                let head = plan_spec(
                    spec_join(from, cs[i].0@),
                    cs[i].1,
                    child_to,
                    spec_lookup(tcs, cs[i].0@),
                    true,
                )->Ok_0;
                let rest = plan_children_spec(from, cs, to, tcs, i + 1)->Ok_0;
                assert forall|j: int| 0 <= j < ops.len() implies ((#[trigger] ops[j]) matches
                    OpView::Symlink(f, t, r) ==> t.len() >= to.len()) by {
                    if j < head.len() {
                        assert(ops[j] == head[j]);
                    } else {
                        assert(ops[j] == rest[j - head.len()]);
                    }
                }
            },
            Err(_) => {},
        }
    }
}

/// The strict form for one merge level: with nonempty child names, a
/// child's symlinks target paths strictly longer than the merge's `to`.
proof fn lemma_children_symlink_strict(
    from: Seq<char>,
    cs: Seq<(String, FsNode)>,
    to: Seq<char>,
    tcs: Seq<(String, FsNode)>,
    i: int,
)
    requires
        forall|k: int| 0 <= k < cs.len() ==> (#[trigger] cs[k]).0@.len() > 0,
    ensures
        plan_children_spec(from, cs, to, tcs, i) matches Ok(ops) ==> forall|j: int|
            0 <= j < ops.len() ==> ((#[trigger] ops[j]) matches OpView::Symlink(f, t, r) ==> t.len()
                > to.len()),
    decreases cs.len() - i,
{
    if 0 <= i < cs.len() {
        let child_to = spec_join(to, cs[i].0@);
        lemma_join_len(to, cs[i].0@);
        lemma_plan_symlink_ge(
            spec_join(from, cs[i].0@),
            cs[i].1,
            child_to,
            spec_lookup(tcs, cs[i].0@),
            true,
        );
        lemma_children_symlink_strict(from, cs, to, tcs, i + 1);
        match plan_children_spec(from, cs, to, tcs, i) {
            Ok(ops) => {
                let head = plan_spec(
                    spec_join(from, cs[i].0@),
                    cs[i].1,
                    child_to,
                    spec_lookup(tcs, cs[i].0@),
                    true,
                )->Ok_0;
                let rest = plan_children_spec(from, cs, to, tcs, i + 1)->Ok_0;
                assert forall|j: int| 0 <= j < ops.len() implies ((#[trigger] ops[j]) matches
                    OpView::Symlink(f, t, r) ==> t.len() > to.len()) by {
                    if j < head.len() {
                        assert(ops[j] == head[j]);
                    } else {
                        assert(ops[j] == rest[j - head.len()]);
                    }
                }
            },
            Err(_) => {},
        }
    }
}

/// A directory merge never replaces the existing target directory: when
/// the target exists as a directory, no symlink operation in the plan
/// carries the top-level pair itself — every planned symlink points
/// strictly below `to`.  Directory entries carry nonempty names, which
/// the premise records.
pub proof fn lemma_merge_no_toplevel_symlink(
    from: Seq<char>,
    children: Vec<(String, FsNode)>,
    to: Seq<char>,
    tchildren: Vec<(String, FsNode)>,
    to_parent_exists: bool,
)
    requires
        forall|k: int| 0 <= k < children@.len() ==> (#[trigger] children@[k]).0@.len() > 0,
    ensures
        plan_spec(from, FsNode::Dir(children), to, Some(FsNode::Dir(tchildren)), to_parent_exists)
            matches Ok(ops) ==> forall|i: int|
            0 <= i < ops.len() ==> ((#[trigger] ops[i]) matches OpView::Symlink(f, t, r) ==> t
                != to),
{
    lemma_children_symlink_strict(from, children@, to, tchildren@, 0);
    match plan_spec(
        from,
        FsNode::Dir(children),
        to,
        Some(FsNode::Dir(tchildren)),
        to_parent_exists,
    ) {
        Ok(ops) => {
            assert(plan_children_spec(from, children@, to, tchildren@, 0) == Ok::<
                Seq<OpView>,
                PlanErrorView,
            >(ops));
            assert forall|i: int| 0 <= i < ops.len() implies ((#[trigger] ops[i]) matches
                OpView::Symlink(f, t, r) ==> t != to) by {
                match ops[i] {
                    OpView::Symlink(_, t, _) => {
                        assert(t.len() > to.len());
                    },
                    _ => {},
                }
            }
        },
        Err(_) => {},
    }
}

/// A source file carrying the reserved ciphertext suffix never yields a
/// symlink operation, whatever the target side looks like.
pub proof fn lemma_enc_source_never_symlinked(
    from: Seq<char>,
    to: Seq<char>,
    tgt: Option<FsNode>,
    to_parent_exists: bool,
)
    requires
        spec_ends_with(from, enc_suffix()),
    ensures
        plan_spec(from, FsNode::File, to, tgt, to_parent_exists) matches Ok(ops) ==> forall|i: int|
            0 <= i < ops.len() ==> !(ops[i] is Symlink),
{
}

} // verus!
