//! Nesting depth and container size checks.
use vstd::prelude::*;

use crate::ast::{height, member_height, members_height, values_height, Member, MonValue, MonValueKind};
use crate::linter::diagnostic::DiagnosticCode;
use crate::linter::{extends, lemma_extends_refl, lemma_extends_trans, Finding, LintConfig, LintResult};
use crate::text::{append_decimal, decimal};

verus! {

/// How far below `v` pair values and array items nest: 0 for a scalar or an
/// empty container, one more than the deepest child otherwise. Type
/// definitions do not count.
pub open spec fn nesting(v: MonValue) -> nat
    decreases v, 0nat,
{
    match v.kind {
        MonValueKind::Object(ms) => pairs_nesting(ms@),
        MonValueKind::Array(items) => items_nesting(items@),
        _ => 0,
    }
}

/// One more than the deepest pair value among `ms`, or 0 when none.
pub open spec fn pairs_nesting(ms: Seq<Member>) -> nat
    decreases ms, ms.len(),
{
    if ms.len() == 0 {
        0
    } else {
        let rest = pairs_nesting(ms.drop_last());
        match ms.last() {
            Member::Pair(p) => {
                let d = 1 + nesting(p.value);
                if d > rest { d } else { rest }
            },
            _ => rest,
        }
    }
}

/// One more than the deepest item among `vs`, or 0 when empty.
pub open spec fn items_nesting(vs: Seq<MonValue>) -> nat
    decreases vs, vs.len(),
{
    if vs.len() == 0 {
        0
    } else {
        let rest = items_nesting(vs.drop_last());
        let d = 1 + nesting(vs.last());
        if d > rest { d } else { rest }
    }
}

/// How many members of `ms` are data rather than type definitions.
pub open spec fn data_member_count(ms: Seq<Member>) -> nat
    decreases ms.len(),
{
    if ms.len() == 0 {
        0
    } else {
        data_member_count(ms.drop_last()) + if ms.last() is TypeDefinition { 0nat } else { 1nat }
    }
}

pub open spec fn deep_nesting_message(depth: nat, limit: nat) -> Seq<char> {
    "Maximum nesting depth of "@ + decimal(depth) + " exceeds limit of "@ + decimal(limit)
        + " by more than 2 levels"@
}

pub open spec fn nesting_message(depth: nat, limit: nat) -> Seq<char> {
    "Maximum nesting depth of "@ + decimal(depth) + " exceeds recommended limit of "@ + decimal(
        limit,
    )
}

pub open spec fn object_size_message(depth: nat, count: nat, limit: nat) -> Seq<char> {
    "Object at depth "@ + decimal(depth) + " has "@ + decimal(count)
        + " members, exceeds recommended limit of "@ + decimal(limit)
}

pub open spec fn array_size_message(depth: nat, count: nat, limit: nat) -> Seq<char> {
    "Array at depth "@ + decimal(depth) + " has "@ + decimal(count)
        + " items, exceeds recommended limit of "@ + decimal(limit)
}

/// The one depth finding of a document whose root is `root`, if its nesting
/// passes the limit: worded more strongly beyond two extra levels.
pub open spec fn depth_findings(cfg: LintConfig, root: MonValue) -> Seq<Finding> {
    let d = nesting(root);
    let limit = cfg.max_nesting_depth as nat;
    if d <= limit {
        Seq::empty()
    } else if d > limit + 2 {
        seq![(DiagnosticCode::MaxNestingDepth, deep_nesting_message(d, limit))]
    } else {
        seq![(DiagnosticCode::MaxNestingDepth, nesting_message(d, limit))]
    }
}

/// The size findings for `v` at `depth` and below, in pre-order: each object
/// with more data members, and each array with more items, than allowed.
pub open spec fn size_findings(cfg: LintConfig, v: MonValue, depth: nat) -> Seq<Finding>
    decreases v, 0nat,
{
    match v.kind {
        MonValueKind::Object(ms) => {
            let n = data_member_count(ms@);
            let own = if n > cfg.max_object_members {
                seq![
                    (
                        DiagnosticCode::MaxObjectMembers,
                        object_size_message(depth, n, cfg.max_object_members as nat),
                    ),
                ]
            } else {
                Seq::empty()
            };
            own + pairs_size_findings(cfg, ms@, depth + 1)
        },
        MonValueKind::Array(items) => {
            let n = items@.len();
            let own = if n > cfg.max_array_items {
                seq![
                    (
                        DiagnosticCode::MaxArrayItems,
                        array_size_message(depth, n, cfg.max_array_items as nat),
                    ),
                ]
            } else {
                Seq::empty()
            };
            own + items_size_findings(cfg, items@, depth + 1)
        },
        _ => Seq::empty(),
    }
}

pub open spec fn pairs_size_findings(cfg: LintConfig, ms: Seq<Member>, depth: nat) -> Seq<Finding>
    decreases ms, ms.len(),
{
    if ms.len() == 0 {
        Seq::empty()
    } else {
        pairs_size_findings(cfg, ms.drop_last(), depth) + match ms.last() {
            Member::Pair(p) => size_findings(cfg, p.value, depth),
            _ => Seq::empty(),
        }
    }
}

pub open spec fn items_size_findings(cfg: LintConfig, vs: Seq<MonValue>, depth: nat) -> Seq<
    Finding,
>
    decreases vs, vs.len(),
{
    if vs.len() == 0 {
        Seq::empty()
    } else {
        items_size_findings(cfg, vs.drop_last(), depth) + size_findings(cfg, vs.last(), depth)
    }
}

/// Every pair value of `ms` nests at most one less than `ms` does.
pub proof fn lemma_pairs_nesting_bound(ms: Seq<Member>, i: int)
    requires
        0 <= i < ms.len(),
        ms[i] is Pair,
    ensures
        1 + nesting(ms[i]->Pair_0.value) <= pairs_nesting(ms),
    decreases ms.len(),
{
    if i < ms.len() - 1 {
        lemma_pairs_nesting_bound(ms.drop_last(), i);
    }
}

/// Every item of `vs` nests at most one less than `vs` does.
pub proof fn lemma_items_nesting_bound(vs: Seq<MonValue>, i: int)
    requires
        0 <= i < vs.len(),
    ensures
        1 + nesting(vs[i]) <= items_nesting(vs),
    decreases vs.len(),
{
    if i < vs.len() - 1 {
        lemma_items_nesting_bound(vs.drop_last(), i);
    }
}

/// Pair values and array items nest no deeper than all values do.
pub proof fn lemma_nesting_le_height(v: MonValue)
    ensures
        nesting(v) <= height(v),
    decreases v, 0nat,
{
    match v.kind {
        MonValueKind::Object(ms) => lemma_pairs_nesting_le(ms@),
        MonValueKind::Array(vs) => lemma_items_nesting_le(vs@),
        _ => {},
    }
}

proof fn lemma_pairs_nesting_le(ms: Seq<Member>)
    ensures
        pairs_nesting(ms) <= 1 + members_height(ms),
    decreases ms, ms.len(),
{
    if ms.len() > 0 {
        lemma_pairs_nesting_le(ms.drop_last());
        match ms.last() {
            Member::Pair(p) => {
                lemma_nesting_le_height(p.value);
                assert(member_height(ms.last()) == height(p.value));
            },
            _ => {},
        }
    }
}

proof fn lemma_items_nesting_le(vs: Seq<MonValue>)
    ensures
        items_nesting(vs) <= 1 + values_height(vs),
    decreases vs, vs.len(),
{
    if vs.len() > 0 {
        lemma_items_nesting_le(vs.drop_last());
        lemma_nesting_le_height(vs.last());
    }
}

/// Checks nesting depth and container sizes against the configured limits.
pub struct ComplexityAnalyzer {
    pub config: LintConfig,
}

impl ComplexityAnalyzer {
    pub fn new(config: LintConfig) -> (r: Self)
        ensures
            r.config == config,
    {
        ComplexityAnalyzer { config }
    }

    /// Adds at most one depth finding for the whole tree, then one size
    /// finding per oversized object or array.
    pub fn analyze(&self, root: &MonValue, result: &mut LintResult)
        requires
            nesting(*root) < usize::MAX,
        ensures
            extends(
                old(result).diagnostics@,
                final(result).diagnostics@,
                depth_findings(self.config, *root) + size_findings(self.config, *root, 0),
            ),
    {
        let ghost start = result.diagnostics@;
        let max_depth = self.calculate_max_depth(root, 0);
        let limit = self.config.max_nesting_depth;
        if max_depth > limit {
            if max_depth - limit > 2 {
                let mut m = String::from_str("Maximum nesting depth of ");
                append_decimal(&mut m, max_depth);
                m.append(" exceeds limit of ");
                append_decimal(&mut m, limit);
                m.append(" by more than 2 levels");
                result.add_diagnostic(DiagnosticCode::MaxNestingDepth, m, None);
            } else {
                let mut m = String::from_str("Maximum nesting depth of ");
                append_decimal(&mut m, max_depth);
                m.append(" exceeds recommended limit of ");
                append_decimal(&mut m, limit);
                result.add_diagnostic(DiagnosticCode::MaxNestingDepth, m, None);
            }
        } else {
            proof {
                lemma_extends_refl(start);
            }
        }
        let ghost mid = result.diagnostics@;
        self.analyze_sizes(root, result, 0);
        proof {
            lemma_extends_trans(
                start,
                mid,
                result.diagnostics@,
                depth_findings(self.config, *root),
                size_findings(self.config, *root, 0),
            );
        }
    }

    /// `current_depth` plus how far below `value` values nest.
    fn calculate_max_depth(&self, value: &MonValue, current_depth: usize) -> (r: usize)
        requires
            current_depth + nesting(*value) <= usize::MAX,
        ensures
            r == current_depth + nesting(*value),
        decreases value,
    {
        match &value.kind {
            MonValueKind::Object(members) => {
                let mut max = current_depth;
                let mut i: usize = 0;
                while i < members.len()
                    invariant
                        value.kind == MonValueKind::Object(*members),
                        current_depth + nesting(*value) <= usize::MAX,
                        i <= members@.len(),
                        max == current_depth + pairs_nesting(members@.subrange(0, i as int)),
                    decreases members.len() - i,
                {
                    proof {
                        assert(members@.subrange(0, i + 1).drop_last() =~= members@.subrange(
                            0,
                            i as int,
                        ));
                    }
                    match &members[i] {
                        Member::Pair(pair) => {
                            proof {
                                lemma_pairs_nesting_bound(members@, i as int);
                            }
                            let depth = self.calculate_max_depth(&pair.value, current_depth + 1);
                            if depth > max {
                                max = depth;
                            }
                        },
                        _ => {},
                    }
                    i = i + 1;
                }
                proof {
                    assert(members@.subrange(0, members@.len() as int) =~= members@);
                }
                max
            },
            MonValueKind::Array(items) => {
                let mut max = current_depth;
                let mut i: usize = 0;
                while i < items.len()
                    invariant
                        value.kind == MonValueKind::Array(*items),
                        current_depth + nesting(*value) <= usize::MAX,
                        i <= items@.len(),
                        max == current_depth + items_nesting(items@.subrange(0, i as int)),
                    decreases items.len() - i,
                {
                    proof {
                        assert(items@.subrange(0, i + 1).drop_last() =~= items@.subrange(
                            0,
                            i as int,
                        ));
                        lemma_items_nesting_bound(items@, i as int);
                    }
                    let depth = self.calculate_max_depth(&items[i], current_depth + 1);
                    if depth > max {
                        max = depth;
                    }
                    i = i + 1;
                }
                proof {
                    assert(items@.subrange(0, items@.len() as int) =~= items@);
                }
                max
            },
            _ => current_depth,
        }
    }

    /// Adds the size findings of `value` and everything below it.
    fn analyze_sizes(&self, value: &MonValue, result: &mut LintResult, depth: usize)
        requires
            depth + nesting(*value) <= usize::MAX,
        ensures
            extends(
                old(result).diagnostics@,
                final(result).diagnostics@,
                size_findings(self.config, *value, depth as nat),
            ),
        decreases value,
    {
        let ghost start = result.diagnostics@;
        match &value.kind {
            MonValueKind::Object(members) => {
                let mut count: usize = 0;
                let mut i: usize = 0;
                while i < members.len()
                    invariant
                        i <= members@.len(),
                        count == data_member_count(members@.subrange(0, i as int)),
                        count <= i,
                    decreases members.len() - i,
                {
                    proof {
                        assert(members@.subrange(0, i + 1).drop_last() =~= members@.subrange(
                            0,
                            i as int,
                        ));
                    }
                    match &members[i] {
                        Member::TypeDefinition(_) => {},
                        _ => {
                            count = count + 1;
                        },
                    }
                    i = i + 1;
                }
                proof {
                    assert(members@.subrange(0, members@.len() as int) =~= members@);
                }
                let limit = self.config.max_object_members;
                if count > limit {
                    let mut m = String::from_str("Object at depth ");
                    append_decimal(&mut m, depth);
                    m.append(" has ");
                    append_decimal(&mut m, count);
                    m.append(" members, exceeds recommended limit of ");
                    append_decimal(&mut m, limit);
                    result.add_diagnostic(DiagnosticCode::MaxObjectMembers, m, None);
                } else {
                    proof {
                        lemma_extends_refl(start);
                    }
                }
                let ghost own_f = if count > limit {
                    seq![
                        (
                            DiagnosticCode::MaxObjectMembers,
                            object_size_message(depth as nat, count as nat, limit as nat),
                        ),
                    ]
                } else {
                    Seq::<Finding>::empty()
                };
                let ghost mid = result.diagnostics@;
                proof {
                    lemma_extends_refl(mid);
                    assert(pairs_size_findings(
                        self.config,
                        members@.subrange(0, 0),
                        (depth + 1) as nat,
                    ) =~= Seq::<Finding>::empty());
                }
                let mut i: usize = 0;
                while i < members.len()
                    invariant
                        value.kind == MonValueKind::Object(*members),
                        depth + nesting(*value) <= usize::MAX,
                        i <= members@.len(),
                        extends(start, mid, own_f),
                        extends(
                            mid,
                            result.diagnostics@,
                            pairs_size_findings(
                                self.config,
                                members@.subrange(0, i as int),
                                (depth + 1) as nat,
                            ),
                        ),
                    decreases members.len() - i,
                {
                    proof {
                        assert(members@.subrange(0, i + 1).drop_last() =~= members@.subrange(
                            0,
                            i as int,
                        ));
                    }
                    let ghost before = result.diagnostics@;
                    match &members[i] {
                        Member::Pair(pair) => {
                            proof {
                                lemma_pairs_nesting_bound(members@, i as int);
                            }
                            self.analyze_sizes(&pair.value, result, depth + 1);
                            proof {
                                lemma_extends_trans(
                                    mid,
                                    before,
                                    result.diagnostics@,
                                    pairs_size_findings(
                                        self.config,
                                        members@.subrange(0, i as int),
                                        (depth + 1) as nat,
                                    ),
                                    size_findings(self.config, pair.value, (depth + 1) as nat),
                                );
                            }
                        },
                        _ => {
                            proof {
                                assert(pairs_size_findings(
                                    self.config,
                                    members@.subrange(0, i as int),
                                    (depth + 1) as nat,
                                ) + Seq::<Finding>::empty() =~= pairs_size_findings(
                                    self.config,
                                    members@.subrange(0, i as int),
                                    (depth + 1) as nat,
                                ));
                            }
                        },
                    }
                    i = i + 1;
                }
                proof {
                    assert(members@.subrange(0, members@.len() as int) =~= members@);
                    lemma_extends_trans(
                        start,
                        mid,
                        result.diagnostics@,
                        own_f,
                        pairs_size_findings(self.config, members@, (depth + 1) as nat),
                    );
                }
            },
            MonValueKind::Array(items) => {
                let limit = self.config.max_array_items;
                if items.len() > limit {
                    let mut m = String::from_str("Array at depth ");
                    append_decimal(&mut m, depth);
                    m.append(" has ");
                    append_decimal(&mut m, items.len());
                    m.append(" items, exceeds recommended limit of ");
                    append_decimal(&mut m, limit);
                    result.add_diagnostic(DiagnosticCode::MaxArrayItems, m, None);
                } else {
                    proof {
                        lemma_extends_refl(start);
                    }
                }
                let ghost own_f = if items@.len() > limit {
                    seq![
                        (
                            DiagnosticCode::MaxArrayItems,
                            array_size_message(depth as nat, items@.len(), limit as nat),
                        ),
                    ]
                } else {
                    Seq::<Finding>::empty()
                };
                let ghost mid = result.diagnostics@;
                proof {
                    lemma_extends_refl(mid);
                    assert(items_size_findings(self.config, items@.subrange(0, 0), (depth + 1) as nat)
                        =~= Seq::<Finding>::empty());
                }
                let mut i: usize = 0;
                while i < items.len()
                    invariant
                        value.kind == MonValueKind::Array(*items),
                        depth + nesting(*value) <= usize::MAX,
                        i <= items@.len(),
                        extends(start, mid, own_f),
                        extends(
                            mid,
                            result.diagnostics@,
                            items_size_findings(
                                self.config,
                                items@.subrange(0, i as int),
                                (depth + 1) as nat,
                            ),
                        ),
                    decreases items.len() - i,
                {
                    proof {
                        assert(items@.subrange(0, i + 1).drop_last() =~= items@.subrange(
                            0,
                            i as int,
                        ));
                        lemma_items_nesting_bound(items@, i as int);
                    }
                    let ghost before = result.diagnostics@;
                    self.analyze_sizes(&items[i], result, depth + 1);
                    proof {
                        lemma_extends_trans(
                            mid,
                            before,
                            result.diagnostics@,
                            items_size_findings(
                                self.config,
                                items@.subrange(0, i as int),
                                (depth + 1) as nat,
                            ),
                            size_findings(self.config, items@[i as int], (depth + 1) as nat),
                        );
                    }
                    i = i + 1;
                }
                proof {
                    assert(items@.subrange(0, items@.len() as int) =~= items@);
                    lemma_extends_trans(
                        start,
                        mid,
                        result.diagnostics@,
                        own_f,
                        items_size_findings(self.config, items@, (depth + 1) as nat),
                    );
                }
            },
            _ => {
                proof {
                    lemma_extends_refl(start);
                }
            },
        }
    }
}

} // verus!
