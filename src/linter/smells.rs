//! Code-smell checks: unused anchors, magic numbers, duplicate keys,
//! excessive spreads, empty containers and mixed key naming.
use vstd::prelude::*;

use crate::ast::{lemma_array_child, lemma_object_child, Member, MonValue, MonValueKind};
use crate::linter::complexity::data_member_count;
use crate::linter::diagnostic::DiagnosticCode;
use crate::linter::{extends, lemma_extends_refl, lemma_extends_trans, Finding, LintResult};
use crate::text::{
    append_decimal, chars_of, contains_char, contains_name, decimal, is_uppercase, same_text,
    text_of_range, uppercase_char, views,
};

verus! {

// ---- anchors and references ----

/// The anchors defined at `v` and below (through pair values and array
/// items), in pre-order, repeats kept.
pub open spec fn anchors_in(v: MonValue) -> Seq<Seq<char>>
    decreases v, 0nat,
{
    let own = match v.anchor {
        Some(a) => seq![a@],
        None => Seq::empty(),
    };
    own + match v.kind {
        MonValueKind::Object(ms) => anchors_in_members(ms@),
        MonValueKind::Array(vs) => anchors_in_items(vs@),
        _ => Seq::empty(),
    }
}

pub open spec fn anchors_in_members(ms: Seq<Member>) -> Seq<Seq<char>>
    decreases ms, ms.len(),
{
    if ms.len() == 0 {
        Seq::empty()
    } else {
        anchors_in_members(ms.drop_last()) + match ms.last() {
            Member::Pair(p) => anchors_in(p.value),
            _ => Seq::empty(),
        }
    }
}

pub open spec fn anchors_in_items(vs: Seq<MonValue>) -> Seq<Seq<char>>
    decreases vs, vs.len(),
{
    if vs.len() == 0 {
        Seq::empty()
    } else {
        anchors_in_items(vs.drop_last()) + anchors_in(vs.last())
    }
}

/// The names that aliases, array spreads and object spreads at `v` and
/// below refer to, in pre-order, repeats kept.
pub open spec fn references_in(v: MonValue) -> Seq<Seq<char>>
    decreases v, 0nat,
{
    match v.kind {
        MonValueKind::Alias(n) => seq![n@],
        MonValueKind::ArraySpread(n) => seq![n@],
        MonValueKind::Object(ms) => references_in_members(ms@),
        MonValueKind::Array(vs) => references_in_items(vs@),
        _ => Seq::empty(),
    }
}

pub open spec fn references_in_members(ms: Seq<Member>) -> Seq<Seq<char>>
    decreases ms, ms.len(),
{
    if ms.len() == 0 {
        Seq::empty()
    } else {
        references_in_members(ms.drop_last()) + match ms.last() {
            Member::Pair(p) => references_in(p.value),
            Member::Spread(n) => seq![n@],
            _ => Seq::empty(),
        }
    }
}

pub open spec fn references_in_items(vs: Seq<MonValue>) -> Seq<Seq<char>>
    decreases vs, vs.len(),
{
    if vs.len() == 0 {
        Seq::empty()
    } else {
        references_in_items(vs.drop_last()) + references_in(vs.last())
    }
}

/// `s` with each name kept at its first occurrence only.
pub open spec fn first_occurrences(s: Seq<Seq<char>>) -> Seq<Seq<char>>
    decreases s.len(),
{
    if s.len() == 0 {
        Seq::empty()
    } else {
        let d = first_occurrences(s.drop_last());
        if d.contains(s.last()) {
            d
        } else {
            d.push(s.last())
        }
    }
}

pub open spec fn unused_anchor_message(name: Seq<char>) -> Seq<char> {
    "Anchor '"@ + name + "' is defined but never used"@
}

/// One finding for each name of `names` that `refs` does not hold.
pub open spec fn unreferenced_findings(names: Seq<Seq<char>>, refs: Seq<Seq<char>>) -> Seq<Finding>
    decreases names.len(),
{
    if names.len() == 0 {
        Seq::empty()
    } else {
        unreferenced_findings(names.drop_last(), refs) + if refs.contains(names.last()) {
            Seq::empty()
        } else {
            seq![(DiagnosticCode::UnusedAnchor, unused_anchor_message(names.last()))]
        }
    }
}

/// The unused-anchor findings of a tree: each anchor defined in it and never
/// referenced in it, once, in order of first definition.
pub open spec fn unused_anchor_findings(root: MonValue) -> Seq<Finding> {
    unreferenced_findings(first_occurrences(anchors_in(root)), references_in(root))
}

// ---- magic numbers ----

/// Whether the number written `t` is one of the common values: at most 1
/// in absolute value, or 10, 100 or 1000 in absolute value.
pub open spec fn is_common_number(t: Seq<char>) -> bool {
    let r = if t.len() > 0 && t[0] == '-' {
        t.drop_first()
    } else {
        t
    };
    ||| r == "0"@
    ||| r == "1"@
    ||| r == "10"@
    ||| r == "100"@
    ||| r == "1000"@
    ||| (r.len() >= 2 && r[0] == '0' && r[1] == '.')
}

pub open spec fn magic_number_message(t: Seq<char>) -> Seq<char> {
    "Consider extracting magic number "@ + t + " into a named constant"@
}

/// One finding per number literal at `v` and below that is not common.
pub open spec fn magic_findings(v: MonValue) -> Seq<Finding>
    decreases v, 0nat,
{
    match v.kind {
        MonValueKind::Number(t) => if is_common_number(t@) {
            Seq::empty()
        } else {
            seq![(DiagnosticCode::MagicNumber, magic_number_message(t@))]
        },
        MonValueKind::Object(ms) => magic_findings_members(ms@),
        MonValueKind::Array(vs) => magic_findings_items(vs@),
        _ => Seq::empty(),
    }
}

pub open spec fn magic_findings_members(ms: Seq<Member>) -> Seq<Finding>
    decreases ms, ms.len(),
{
    if ms.len() == 0 {
        Seq::empty()
    } else {
        magic_findings_members(ms.drop_last()) + match ms.last() {
            Member::Pair(p) => magic_findings(p.value),
            _ => Seq::empty(),
        }
    }
}

pub open spec fn magic_findings_items(vs: Seq<MonValue>) -> Seq<Finding>
    decreases vs, vs.len(),
{
    if vs.len() == 0 {
        Seq::empty()
    } else {
        magic_findings_items(vs.drop_last()) + magic_findings(vs.last())
    }
}

// ---- duplicate keys ----

/// The keys of the pairs among `ms`, in order.
pub open spec fn pair_keys(ms: Seq<Member>) -> Seq<Seq<char>>
    decreases ms.len(),
{
    if ms.len() == 0 {
        Seq::empty()
    } else {
        pair_keys(ms.drop_last()) + match ms.last() {
            Member::Pair(p) => seq![p.key@],
            _ => Seq::empty(),
        }
    }
}

pub open spec fn duplicate_key_message(key: Seq<char>) -> Seq<char> {
    "Duplicate key '"@ + key + "' in object"@
}

/// The duplicate-key finding of the last member of `ms`, if it is a pair
/// whose key an earlier pair of `ms` already has.
pub open spec fn repeat_of_last(ms: Seq<Member>) -> Seq<Finding> {
    match ms.last() {
        Member::Pair(p) => if pair_keys(ms.drop_last()).contains(p.key@) {
            seq![(DiagnosticCode::DuplicateKey, duplicate_key_message(p.key@))]
        } else {
            Seq::empty()
        },
        _ => Seq::empty(),
    }
}

/// The findings on repeated keys among the members of one object alone:
/// one per pair whose key an earlier pair has.
pub open spec fn repeated_key_findings(ms: Seq<Member>) -> Seq<Finding>
    decreases ms.len(),
{
    if ms.len() == 0 {
        Seq::empty()
    } else {
        repeated_key_findings(ms.drop_last()) + repeat_of_last(ms)
    }
}

/// The duplicate-key findings at `v` and below: for each pair in order, its
/// own finding, then those inside its value.
pub open spec fn duplicate_findings(v: MonValue) -> Seq<Finding>
    decreases v, 0nat,
{
    match v.kind {
        MonValueKind::Object(ms) => duplicate_findings_members(ms@),
        MonValueKind::Array(vs) => duplicate_findings_items(vs@),
        _ => Seq::empty(),
    }
}

pub open spec fn duplicate_findings_members(ms: Seq<Member>) -> Seq<Finding>
    decreases ms, ms.len(),
{
    if ms.len() == 0 {
        Seq::empty()
    } else {
        duplicate_findings_members(ms.drop_last()) + repeat_of_last(ms) + match ms.last() {
            Member::Pair(p) => duplicate_findings(p.value),
            _ => Seq::empty(),
        }
    }
}

pub open spec fn duplicate_findings_items(vs: Seq<MonValue>) -> Seq<Finding>
    decreases vs, vs.len(),
{
    if vs.len() == 0 {
        Seq::empty()
    } else {
        duplicate_findings_items(vs.drop_last()) + duplicate_findings(vs.last())
    }
}

// ---- spreads, empty containers, naming ----

/// How many spread members `ms` holds.
pub open spec fn spread_count(ms: Seq<Member>) -> nat
    decreases ms.len(),
{
    if ms.len() == 0 {
        0
    } else {
        spread_count(ms.drop_last()) + if ms.last() is Spread { 1nat } else { 0nat }
    }
}

pub open spec fn spread_message(n: nat) -> Seq<char> {
    "Object has "@ + decimal(n) + " spreads, consider simplifying"@
}

/// One finding for each object at `v` and below with more than 3 spreads,
/// each object before those inside it.
pub open spec fn spread_findings(v: MonValue) -> Seq<Finding>
    decreases v, 0nat,
{
    match v.kind {
        MonValueKind::Object(ms) => {
            let n = spread_count(ms@);
            (if n > 3 {
                seq![(DiagnosticCode::ExcessiveSpreads, spread_message(n))]
            } else {
                Seq::empty()
            }) + spread_findings_members(ms@)
        },
        MonValueKind::Array(vs) => spread_findings_items(vs@),
        _ => Seq::empty(),
    }
}

pub open spec fn spread_findings_members(ms: Seq<Member>) -> Seq<Finding>
    decreases ms, ms.len(),
{
    if ms.len() == 0 {
        Seq::empty()
    } else {
        spread_findings_members(ms.drop_last()) + match ms.last() {
            Member::Pair(p) => spread_findings(p.value),
            _ => Seq::empty(),
        }
    }
}

pub open spec fn spread_findings_items(vs: Seq<MonValue>) -> Seq<Finding>
    decreases vs, vs.len(),
{
    if vs.len() == 0 {
        Seq::empty()
    } else {
        spread_findings_items(vs.drop_last()) + spread_findings(vs.last())
    }
}

pub open spec fn empty_object_message() -> Seq<char> {
    "Empty object found - verify this is intentional"@
}

pub open spec fn empty_array_message() -> Seq<char> {
    "Empty array found - verify this is intentional"@
}

/// One finding for each object without data members and each array without
/// items at `v` and below, each container before those inside it.
pub open spec fn empty_findings(v: MonValue) -> Seq<Finding>
    decreases v, 0nat,
{
    match v.kind {
        MonValueKind::Object(ms) => (if data_member_count(ms@) == 0 {
            seq![(DiagnosticCode::EmptyObject, empty_object_message())]
        } else {
            Seq::empty()
        }) + empty_findings_members(ms@),
        MonValueKind::Array(vs) => (if vs@.len() == 0 {
            seq![(DiagnosticCode::EmptyObject, empty_array_message())]
        } else {
            Seq::empty()
        }) + empty_findings_items(vs@),
        _ => Seq::empty(),
    }
}

pub open spec fn empty_findings_members(ms: Seq<Member>) -> Seq<Finding>
    decreases ms, ms.len(),
{
    if ms.len() == 0 {
        Seq::empty()
    } else {
        empty_findings_members(ms.drop_last()) + match ms.last() {
            Member::Pair(p) => empty_findings(p.value),
            _ => Seq::empty(),
        }
    }
}

pub open spec fn empty_findings_items(vs: Seq<MonValue>) -> Seq<Finding>
    decreases vs, vs.len(),
{
    if vs.len() == 0 {
        Seq::empty()
    } else {
        empty_findings_items(vs.drop_last()) + empty_findings(vs.last())
    }
}

/// A key holding an underscore, a sign of snake case.
pub open spec fn is_snake_key(k: Seq<char>) -> bool {
    k.contains('_')
}

/// A key holding an uppercase letter, a sign of camel case.
pub open spec fn is_camel_key(k: Seq<char>) -> bool {
    exists|i: int| 0 <= i < k.len() && uppercase_char(#[trigger] k[i])
}

/// How many pair keys of `ms` look snake case.
pub open spec fn snake_count(ms: Seq<Member>) -> nat
    decreases ms.len(),
{
    if ms.len() == 0 {
        0
    } else {
        snake_count(ms.drop_last()) + match ms.last() {
            Member::Pair(p) => if is_snake_key(p.key@) { 1nat } else { 0nat },
            _ => 0nat,
        }
    }
}

/// How many pair keys of `ms` look camel case.
pub open spec fn camel_count(ms: Seq<Member>) -> nat
    decreases ms.len(),
{
    if ms.len() == 0 {
        0
    } else {
        camel_count(ms.drop_last()) + match ms.last() {
            Member::Pair(p) => if is_camel_key(p.key@) { 1nat } else { 0nat },
            _ => 0nat,
        }
    }
}

pub open spec fn naming_message(snake: nat, camel: nat) -> Seq<char> {
    "Object has mixed naming styles ("@ + decimal(snake) + " snake_case, "@ + decimal(camel)
        + " camelCase)"@
}

/// The mixed-naming findings of the objects reached from `v` through pair
/// values: those inside an object come before its own.
pub open spec fn naming_findings(v: MonValue) -> Seq<Finding>
    decreases v, 0nat,
{
    match v.kind {
        MonValueKind::Object(ms) => {
            let s = snake_count(ms@);
            let c = camel_count(ms@);
            naming_findings_members(ms@) + if s > 0 && c > 0 {
                seq![(DiagnosticCode::InconsistentNaming, naming_message(s, c))]
            } else {
                Seq::empty()
            }
        },
        _ => Seq::empty(),
    }
}

pub open spec fn naming_findings_members(ms: Seq<Member>) -> Seq<Finding>
    decreases ms, ms.len(),
{
    if ms.len() == 0 {
        Seq::empty()
    } else {
        naming_findings_members(ms.drop_last()) + match ms.last() {
            Member::Pair(p) => naming_findings(p.value),
            _ => Seq::empty(),
        }
    }
}

/// Everything the smell detector reports on a tree, in its order of checks.
pub open spec fn smell_findings(warn_unused: bool, warn_magic: bool, root: MonValue) -> Seq<
    Finding,
> {
    (if warn_unused {
        unused_anchor_findings(root)
    } else {
        Seq::empty()
    }) + (if warn_magic {
        magic_findings(root)
    } else {
        Seq::empty()
    }) + duplicate_findings(root) + spread_findings(root) + empty_findings(root) + naming_findings(
        root,
    )
}

proof fn lemma_views_push(a: Seq<String>, x: String)
    ensures
        views(a.push(x)) == views(a).push(x@),
{
    assert(views(a.push(x)) =~= views(a).push(x@));
}

/// Whether the number written `t` is a common value (see [`is_common_number`]).
pub fn is_common_number_text(t: &str) -> (r: bool)
    ensures
        r == is_common_number(t@),
{
    let cs = chars_of(t);
    let start: usize = if cs.len() > 0 && cs[0] == '-' { 1 } else { 0 };
    let rest = text_of_range(&cs, start, cs.len());
    proof {
        if cs@.len() > 0 && cs@[0] == '-' {
            assert(rest@ =~= t@.drop_first());
        } else {
            assert(rest@ =~= t@);
        }
    }
    if same_text(rest.as_str(), "0") || same_text(rest.as_str(), "1") || same_text(rest.as_str(), "10")
        || same_text(rest.as_str(), "100") || same_text(rest.as_str(), "1000") {
        return true;
    }
    cs.len() >= start + 2 && cs[start] == '0' && cs[start + 1] == '.'
}

/// Whether some character of `key` is uppercase.
fn has_uppercase(key: &str) -> (r: bool)
    ensures
        r == is_camel_key(key@),
{
    let cs = chars_of(key);
    let mut i: usize = 0;
    while i < cs.len()
        invariant
            cs@ == key@,
            i <= cs@.len(),
            forall|j: int| 0 <= j < i ==> !uppercase_char(#[trigger] cs@[j]),
        decreases cs.len() - i,
    {
        if is_uppercase(cs[i]) {
            return true;
        }
        i = i + 1;
    }
    false
}

/// Appends the names referenced at `value` and below, in pre-order.
pub fn collect_references(value: &MonValue, names: &mut Vec<String>)
    ensures
        views(final(names)@) == views(old(names)@) + references_in(*value),
    decreases value,
{
    let ghost start = views(names@);
    match &value.kind {
        MonValueKind::Alias(n) => {
            proof { lemma_views_push(names@, *n); }
            names.push(n.clone());
            assert(views(names@) =~= start + references_in(*value));
        },
        MonValueKind::ArraySpread(n) => {
            proof { lemma_views_push(names@, *n); }
            names.push(n.clone());
            assert(views(names@) =~= start + references_in(*value));
        },
        MonValueKind::Object(members) => {
            proof { assert(references_in_members(members@.subrange(0, 0)) =~= Seq::<Seq<char>>::empty()); assert(start + Seq::<Seq<char>>::empty() =~= start); }
            let mut i: usize = 0;
            while i < members.len()
                invariant
                    value.kind == MonValueKind::Object(*members),
                    i <= members@.len(),
                    views(names@) == start + references_in_members(members@.subrange(0, i as int)),
                decreases members.len() - i,
            {
                proof {
                    assert(members@.subrange(0, i + 1).drop_last() =~= members@.subrange(0, i as int));
                    lemma_object_child(*value, i as int);
                }
                match &members[i] {
                    Member::Pair(pair) => {
                        collect_references(&pair.value, names);
                    },
                    Member::Spread(n) => {
                        proof { lemma_views_push(names@, *n); }
                        names.push(n.clone());
                    },
                    _ => {},
                }
                assert(views(names@) =~= start + references_in_members(members@.subrange(0, i + 1)));
                i = i + 1;
            }
            proof {
                assert(members@.subrange(0, members@.len() as int) =~= members@);
            }
        },
        MonValueKind::Array(items) => {
            proof { assert(references_in_items(items@.subrange(0, 0)) =~= Seq::<Seq<char>>::empty()); assert(start + Seq::<Seq<char>>::empty() =~= start); }
            let mut i: usize = 0;
            while i < items.len()
                invariant
                    value.kind == MonValueKind::Array(*items),
                    i <= items@.len(),
                    views(names@) == start + references_in_items(items@.subrange(0, i as int)),
                decreases items.len() - i,
            {
                proof {
                    assert(items@.subrange(0, i + 1).drop_last() =~= items@.subrange(0, i as int));
                    lemma_array_child(*value, i as int);
                }
                collect_references(&items[i], names);
                assert(views(names@) =~= start + references_in_items(items@.subrange(0, i + 1)));
                i = i + 1;
            }
            proof {
                assert(items@.subrange(0, items@.len() as int) =~= items@);
            }
        },
        _ => {
            assert(views(names@) =~= start + references_in(*value));
        },
    }
}

/// Detects code smells: unused anchors and magic numbers when enabled, and
/// always duplicate keys, excessive spreads, empty containers and mixed
/// key naming.
pub struct SmellDetector {
    pub warn_unused_anchors: bool,
    pub warn_magic_numbers: bool,
}

impl SmellDetector {
    pub fn new(warn_unused_anchors: bool, warn_magic_numbers: bool) -> (r: Self)
        ensures
            r.warn_unused_anchors == warn_unused_anchors,
            r.warn_magic_numbers == warn_magic_numbers,
    {
        SmellDetector { warn_unused_anchors, warn_magic_numbers }
    }

    /// Runs every enabled check on the tree under `root`, in a fixed order.
    pub fn detect(&self, root: &MonValue, result: &mut LintResult)
        ensures
            extends(
                old(result).diagnostics@,
                final(result).diagnostics@,
                smell_findings(self.warn_unused_anchors, self.warn_magic_numbers, *root),
            ),
    {
        let ghost s0 = result.diagnostics@;
        if self.warn_unused_anchors {
            self.detect_unused_anchors(root, result);
        } else {
            proof { lemma_extends_refl(s0); }
        }
        let ghost s1 = result.diagnostics@;
        if self.warn_magic_numbers {
            self.detect_magic_numbers(root, result);
        } else {
            proof { lemma_extends_refl(s1); }
        }
        let ghost s2 = result.diagnostics@;
        self.detect_duplicate_keys(root, result);
        let ghost s3 = result.diagnostics@;
        self.detect_excessive_spreads(root, result);
        let ghost s4 = result.diagnostics@;
        self.detect_empty_structures(root, result);
        let ghost s5 = result.diagnostics@;
        self.detect_inconsistent_naming(root, result);
        proof {
            let f0 = if self.warn_unused_anchors { unused_anchor_findings(*root) } else { Seq::empty() };
            let f1 = if self.warn_magic_numbers { magic_findings(*root) } else { Seq::empty() };
            lemma_extends_trans(s0, s1, s2, f0, f1);
            lemma_extends_trans(s0, s2, s3, f0 + f1, duplicate_findings(*root));
            lemma_extends_trans(s0, s3, s4, f0 + f1 + duplicate_findings(*root), spread_findings(*root));
            lemma_extends_trans(s0, s4, s5, f0 + f1 + duplicate_findings(*root) + spread_findings(*root), empty_findings(*root));
            lemma_extends_trans(s0, s5, result.diagnostics@, f0 + f1 + duplicate_findings(*root) + spread_findings(*root) + empty_findings(*root), naming_findings(*root));
        }
    }

    /// Reports each anchor defined and never referenced in the tree, once,
    /// in order of first definition.
    fn detect_unused_anchors(&self, root: &MonValue, result: &mut LintResult)
        ensures
            extends(old(result).diagnostics@, final(result).diagnostics@, unused_anchor_findings(*root)),
    {
        let ghost start = result.diagnostics@;
        let mut all: Vec<String> = Vec::new();
        self.collect_anchors(root, &mut all);
        let mut used: Vec<String> = Vec::new();
        collect_references(root, &mut used);
        assert(views(all@) =~= anchors_in(*root));
        assert(views(used@) =~= references_in(*root));
        let mut defined: Vec<String> = Vec::new();
        let mut i: usize = 0;
        while i < all.len()
            invariant
                i <= all@.len(),
                views(defined@) == first_occurrences(views(all@).subrange(0, i as int)),
            decreases all.len() - i,
        {
            proof {
                assert(views(all@).subrange(0, i + 1).drop_last() =~= views(all@).subrange(0, i as int));
            }
            if !contains_name(&defined, all[i].as_str()) {
                proof { lemma_views_push(defined@, all@[i as int]); }
                defined.push(all[i].clone());
            }
            i = i + 1;
        }
        proof {
            assert(views(all@).subrange(0, all@.len() as int) =~= views(all@));
            lemma_extends_refl(start);
            assert(views(defined@).subrange(0, 0) =~= Seq::<Seq<char>>::empty());
        }
        let mut j: usize = 0;
        while j < defined.len()
            invariant
                j <= defined@.len(),
                views(used@) == references_in(*root),
                views(defined@) == first_occurrences(anchors_in(*root)),
                extends(start, result.diagnostics@, unreferenced_findings(views(defined@).subrange(0, j as int), views(used@))),
            decreases defined.len() - j,
        {
            proof {
                assert(views(defined@).subrange(0, j + 1).drop_last() =~= views(defined@).subrange(0, j as int));
            }
            let ghost before = result.diagnostics@;
            if !contains_name(&used, defined[j].as_str()) {
                let mut m = String::from_str("Anchor '");
                m.append(defined[j].as_str());
                m.append("' is defined but never used");
                result.add_diagnostic(DiagnosticCode::UnusedAnchor, m, None);
                proof {
                    lemma_extends_trans(start, before, result.diagnostics@,
                        unreferenced_findings(views(defined@).subrange(0, j as int), views(used@)),
                        seq![(DiagnosticCode::UnusedAnchor, unused_anchor_message(defined@[j as int]@))]);
                }
            } else {
                proof {
                    assert(unreferenced_findings(views(defined@).subrange(0, j as int), views(used@)) + Seq::<Finding>::empty()
                        =~= unreferenced_findings(views(defined@).subrange(0, j as int), views(used@)));
                }
            }
            j = j + 1;
        }
        proof {
            assert(views(defined@).subrange(0, defined@.len() as int) =~= views(defined@));
        }
    }

    /// Appends the anchors defined at `value` and below, in pre-order.
    fn collect_anchors(&self, value: &MonValue, anchors: &mut Vec<String>)
        ensures
            views(final(anchors)@) == views(old(anchors)@) + anchors_in(*value),
        decreases value,
    {
        let ghost start = views(anchors@);
        match &value.anchor {
            Some(a) => {
                proof { lemma_views_push(anchors@, *a); }
                anchors.push(a.clone());
            },
            None => {
                assert(start + Seq::<Seq<char>>::empty() =~= start);
            },
        }
        let ghost mid = views(anchors@);
        match &value.kind {
            MonValueKind::Object(members) => {
                proof { assert(anchors_in_members(members@.subrange(0, 0)) =~= Seq::<Seq<char>>::empty()); assert(mid + Seq::<Seq<char>>::empty() =~= mid); }
                let mut i: usize = 0;
                while i < members.len()
                    invariant
                        value.kind == MonValueKind::Object(*members),
                        i <= members@.len(),
                        views(anchors@) == mid + anchors_in_members(members@.subrange(0, i as int)),
                    decreases members.len() - i,
                {
                    proof {
                        assert(members@.subrange(0, i + 1).drop_last() =~= members@.subrange(0, i as int));
                        lemma_object_child(*value, i as int);
                    }
                    let ghost before = views(anchors@);
                    match &members[i] {
                        Member::Pair(pair) => {
                            self.collect_anchors(&pair.value, anchors);
                            assert(views(anchors@) =~= mid + anchors_in_members(members@.subrange(0, i + 1)));
                        },
                        _ => {
                            assert(views(anchors@) =~= mid + anchors_in_members(members@.subrange(0, i + 1)));
                        },
                    }
                    i = i + 1;
                }
                proof {
                    assert(members@.subrange(0, members@.len() as int) =~= members@);
                }
            },
            MonValueKind::Array(items) => {
                proof { assert(anchors_in_items(items@.subrange(0, 0)) =~= Seq::<Seq<char>>::empty()); assert(mid + Seq::<Seq<char>>::empty() =~= mid); }
                let mut i: usize = 0;
                while i < items.len()
                    invariant
                        value.kind == MonValueKind::Array(*items),
                        i <= items@.len(),
                        views(anchors@) == mid + anchors_in_items(items@.subrange(0, i as int)),
                    decreases items.len() - i,
                {
                    proof {
                        assert(items@.subrange(0, i + 1).drop_last() =~= items@.subrange(0, i as int));
                        lemma_array_child(*value, i as int);
                    }
                    self.collect_anchors(&items[i], anchors);
                    assert(views(anchors@) =~= mid + anchors_in_items(items@.subrange(0, i + 1)));
                    i = i + 1;
                }
                proof {
                    assert(items@.subrange(0, items@.len() as int) =~= items@);
                }
            },
            _ => {
                assert(mid + Seq::<Seq<char>>::empty() =~= mid);
            },
        }
        assert(views(anchors@) =~= start + anchors_in(*value));
    }

    /// Reports each number literal that is not a common value.
    fn detect_magic_numbers(&self, value: &MonValue, result: &mut LintResult)
        ensures
            extends(old(result).diagnostics@, final(result).diagnostics@, magic_findings(*value)),
        decreases value,
    {
        let ghost start = result.diagnostics@;
        match &value.kind {
            MonValueKind::Number(t) => {
                if !is_common_number_text(t.as_str()) {
                    let mut m = String::from_str("Consider extracting magic number ");
                    m.append(t.as_str());
                    m.append(" into a named constant");
                    result.add_diagnostic(DiagnosticCode::MagicNumber, m, None);
                } else {
                    proof { lemma_extends_refl(start); }
                }
            },
            MonValueKind::Object(members) => {
                proof {
                    lemma_extends_refl(start);
                    assert(magic_findings_members(members@.subrange(0, 0)) =~= Seq::<Finding>::empty());
                }
                let mut i: usize = 0;
                while i < members.len()
                    invariant
                        value.kind == MonValueKind::Object(*members),
                        i <= members@.len(),
                        extends(start, result.diagnostics@, magic_findings_members(members@.subrange(0, i as int))),
                    decreases members.len() - i,
                {
                    proof {
                        assert(members@.subrange(0, i + 1).drop_last() =~= members@.subrange(0, i as int));
                        lemma_object_child(*value, i as int);
                    }
                    let ghost before = result.diagnostics@;
                    match &members[i] {
                        Member::Pair(pair) => {
                            self.detect_magic_numbers(&pair.value, result);
                            proof {
                                lemma_extends_trans(
                                    start,
                                    before,
                                    result.diagnostics@,
                                    magic_findings_members(members@.subrange(0, i as int)),
                                    magic_findings(pair.value),
                                );
                            }
                        },
                        _ => {
                            proof {
                                assert(magic_findings_members(members@.subrange(0, i as int)) + Seq::<Finding>::empty()
                                    =~= magic_findings_members(members@.subrange(0, i as int)));
                            }
                        },
                    }
                    i = i + 1;
                }
                proof {
                    assert(members@.subrange(0, members@.len() as int) =~= members@);
                }
            },
            MonValueKind::Array(items) => {
                proof {
                    lemma_extends_refl(start);
                    assert(magic_findings_items(items@.subrange(0, 0)) =~= Seq::<Finding>::empty());
                }
                let mut i: usize = 0;
                while i < items.len()
                    invariant
                        value.kind == MonValueKind::Array(*items),
                        i <= items@.len(),
                        extends(start, result.diagnostics@, magic_findings_items(items@.subrange(0, i as int))),
                    decreases items.len() - i,
                {
                    proof {
                        assert(items@.subrange(0, i + 1).drop_last() =~= items@.subrange(0, i as int));
                        lemma_array_child(*value, i as int);
                    }
                    let ghost before = result.diagnostics@;
                    self.detect_magic_numbers(&items[i], result);
                    proof {
                        lemma_extends_trans(
                            start,
                            before,
                            result.diagnostics@,
                            magic_findings_items(items@.subrange(0, i as int)),
                            magic_findings(items@[i as int]),
                        );
                    }
                    i = i + 1;
                }
                proof {
                    assert(items@.subrange(0, items@.len() as int) =~= items@);
                }
            },
            _ => {
                proof { lemma_extends_refl(start); }
            },
        }
    }

    /// Reports each pair whose key an earlier pair of the same object has,
    /// at `value` and below.
    fn detect_duplicate_keys(&self, value: &MonValue, result: &mut LintResult)
        ensures
            extends(old(result).diagnostics@, final(result).diagnostics@, duplicate_findings(*value)),
        decreases value,
    {
        let ghost start = result.diagnostics@;
        match &value.kind {
            MonValueKind::Object(members) => {
                let mut seen: Vec<String> = Vec::new();
                proof {
                    lemma_extends_refl(start);
                    assert(duplicate_findings_members(members@.subrange(0, 0)) =~= Seq::<Finding>::empty());
                    assert(views(seen@) =~= pair_keys(members@.subrange(0, 0)));
                }
                let mut i: usize = 0;
                while i < members.len()
                    invariant
                        value.kind == MonValueKind::Object(*members),
                        i <= members@.len(),
                        views(seen@) == pair_keys(members@.subrange(0, i as int)),
                        extends(start, result.diagnostics@, duplicate_findings_members(members@.subrange(0, i as int))),
                    decreases members.len() - i,
                {
                    let ghost sub = members@.subrange(0, i + 1);
                    proof {
                        assert(sub.drop_last() =~= members@.subrange(0, i as int));
                        lemma_object_child(*value, i as int);
                    }
                    let ghost before = result.diagnostics@;
                    match &members[i] {
                        Member::Pair(pair) => {
                            if contains_name(&seen, pair.key.as_str()) {
                                let mut m = String::from_str("Duplicate key '");
                                m.append(pair.key.as_str());
                                m.append("' in object");
                                result.add_diagnostic(DiagnosticCode::DuplicateKey, m, None);
                            } else {
                                proof { lemma_extends_refl(before); }
                            }
                            proof {
                                lemma_extends_trans(start, before, result.diagnostics@,
                                    duplicate_findings_members(sub.drop_last()), repeat_of_last(sub));
                                lemma_views_push(seen@, pair.key);
                            }
                            seen.push(pair.key.clone());
                            let ghost mid = result.diagnostics@;
                            self.detect_duplicate_keys(&pair.value, result);
                            proof {
                                lemma_extends_trans(start, mid, result.diagnostics@,
                                    duplicate_findings_members(sub.drop_last()) + repeat_of_last(sub),
                                    duplicate_findings(pair.value));
                                assert(views(seen@) =~= pair_keys(sub));
                            }
                        },
                        _ => {
                            proof {
                                assert(duplicate_findings_members(sub) =~= duplicate_findings_members(sub.drop_last()));
                                assert(views(seen@) =~= pair_keys(sub));
                            }
                        },
                    }
                    i = i + 1;
                }
                proof {
                    assert(members@.subrange(0, members@.len() as int) =~= members@);
                }
            },
            MonValueKind::Array(items) => {
                proof {
                    lemma_extends_refl(start);
                    assert(duplicate_findings_items(items@.subrange(0, 0)) =~= Seq::<Finding>::empty());
                }
                let mut i: usize = 0;
                while i < items.len()
                    invariant
                        value.kind == MonValueKind::Array(*items),
                        i <= items@.len(),
                        extends(start, result.diagnostics@, duplicate_findings_items(items@.subrange(0, i as int))),
                    decreases items.len() - i,
                {
                    proof {
                        assert(items@.subrange(0, i + 1).drop_last() =~= items@.subrange(0, i as int));
                        lemma_array_child(*value, i as int);
                    }
                    let ghost before = result.diagnostics@;
                    self.detect_duplicate_keys(&items[i], result);
                    proof {
                        lemma_extends_trans(
                            start,
                            before,
                            result.diagnostics@,
                            duplicate_findings_items(items@.subrange(0, i as int)),
                            duplicate_findings(items@[i as int]),
                        );
                    }
                    i = i + 1;
                }
                proof {
                    assert(items@.subrange(0, items@.len() as int) =~= items@);
                }
            },
            _ => {
                proof { lemma_extends_refl(start); }
            },
        }
    }

    /// Reports each object with more than 3 spread members, at `value` and below.
    fn detect_excessive_spreads(&self, value: &MonValue, result: &mut LintResult)
        ensures
            extends(old(result).diagnostics@, final(result).diagnostics@, spread_findings(*value)),
        decreases value,
    {
        let ghost start = result.diagnostics@;
        match &value.kind {
            MonValueKind::Object(members) => {
                let mut count: usize = 0;
                let mut k: usize = 0;
                while k < members.len()
                    invariant
                        k <= members@.len(),
                        count == spread_count(members@.subrange(0, k as int)),
                        count <= k,
                    decreases members.len() - k,
                {
                    proof {
                        assert(members@.subrange(0, k + 1).drop_last() =~= members@.subrange(0, k as int));
                    }
                    match &members[k] {
                        Member::Spread(_) => {
                            count = count + 1;
                        },
                        _ => {},
                    }
                    k = k + 1;
                }
                proof {
                    assert(members@.subrange(0, members@.len() as int) =~= members@);
                }
                if count > 3 {
                    let mut m = String::from_str("Object has ");
                    append_decimal(&mut m, count);
                    m.append(" spreads, consider simplifying");
                    result.add_diagnostic(DiagnosticCode::ExcessiveSpreads, m, None);
                } else {
                    proof { lemma_extends_refl(start); }
                }
                let ghost own_f = if count > 3 {
                    seq![(DiagnosticCode::ExcessiveSpreads, spread_message(count as nat))]
                } else {
                    Seq::<Finding>::empty()
                };
                let ghost mid = result.diagnostics@;
                proof {
                    lemma_extends_refl(mid);
                    assert(spread_findings_members(members@.subrange(0, 0)) =~= Seq::<Finding>::empty());
                }
                let mut i: usize = 0;
                while i < members.len()
                    invariant
                        value.kind == MonValueKind::Object(*members),
                        i <= members@.len(),
                        extends(mid, result.diagnostics@, spread_findings_members(members@.subrange(0, i as int))),
                        extends(start, mid, own_f),
                    decreases members.len() - i,
                {
                    proof {
                        assert(members@.subrange(0, i + 1).drop_last() =~= members@.subrange(0, i as int));
                        lemma_object_child(*value, i as int);
                    }
                    let ghost before = result.diagnostics@;
                    match &members[i] {
                        Member::Pair(pair) => {
                            self.detect_excessive_spreads(&pair.value, result);
                            proof {
                                lemma_extends_trans(
                                    mid,
                                    before,
                                    result.diagnostics@,
                                    spread_findings_members(members@.subrange(0, i as int)),
                                    spread_findings(pair.value),
                                );
                            }
                        },
                        _ => {
                            proof {
                                assert(spread_findings_members(members@.subrange(0, i as int)) + Seq::<Finding>::empty()
                                    =~= spread_findings_members(members@.subrange(0, i as int)));
                            }
                        },
                    }
                    i = i + 1;
                }
                proof {
                    assert(members@.subrange(0, members@.len() as int) =~= members@);
                }
                proof {
                    lemma_extends_trans(start, mid, result.diagnostics@, own_f, spread_findings_members(members@));
                }
            },
            MonValueKind::Array(items) => {
                let ghost mid = result.diagnostics@;
                proof {
                    lemma_extends_refl(mid);
                    assert(spread_findings_items(items@.subrange(0, 0)) =~= Seq::<Finding>::empty());
                }
                let mut i: usize = 0;
                while i < items.len()
                    invariant
                        value.kind == MonValueKind::Array(*items),
                        i <= items@.len(),
                        extends(mid, result.diagnostics@, spread_findings_items(items@.subrange(0, i as int))),
                    decreases items.len() - i,
                {
                    proof {
                        assert(items@.subrange(0, i + 1).drop_last() =~= items@.subrange(0, i as int));
                        lemma_array_child(*value, i as int);
                    }
                    let ghost before = result.diagnostics@;
                    self.detect_excessive_spreads(&items[i], result);
                    proof {
                        lemma_extends_trans(
                            mid,
                            before,
                            result.diagnostics@,
                            spread_findings_items(items@.subrange(0, i as int)),
                            spread_findings(items@[i as int]),
                        );
                    }
                    i = i + 1;
                }
                proof {
                    assert(items@.subrange(0, items@.len() as int) =~= items@);
                }
            },
            _ => {
                proof { lemma_extends_refl(start); }
            },
        }
    }

    /// Reports each object without data members and each empty array, at
    /// `value` and below.
    fn detect_empty_structures(&self, value: &MonValue, result: &mut LintResult)
        ensures
            extends(old(result).diagnostics@, final(result).diagnostics@, empty_findings(*value)),
        decreases value,
    {
        let ghost start = result.diagnostics@;
        match &value.kind {
            MonValueKind::Object(members) => {
                let mut count: usize = 0;
                let mut k: usize = 0;
                while k < members.len()
                    invariant
                        k <= members@.len(),
                        count == data_member_count(members@.subrange(0, k as int)),
                        count <= k,
                    decreases members.len() - k,
                {
                    proof {
                        assert(members@.subrange(0, k + 1).drop_last() =~= members@.subrange(0, k as int));
                    }
                    match &members[k] {
                        Member::TypeDefinition(_) => {},
                        _ => {
                            count = count + 1;
                        },
                    }
                    k = k + 1;
                }
                proof {
                    assert(members@.subrange(0, members@.len() as int) =~= members@);
                }
                if count == 0 {
                    let m = String::from_str("Empty object found - verify this is intentional");
                    result.add_diagnostic(DiagnosticCode::EmptyObject, m, None);
                } else {
                    proof { lemma_extends_refl(start); }
                }
                let ghost own_f = if count == 0 {
                    seq![(DiagnosticCode::EmptyObject, empty_object_message())]
                } else {
                    Seq::<Finding>::empty()
                };
                let ghost mid = result.diagnostics@;
                proof {
                    lemma_extends_refl(mid);
                    assert(empty_findings_members(members@.subrange(0, 0)) =~= Seq::<Finding>::empty());
                }
                let mut i: usize = 0;
                while i < members.len()
                    invariant
                        value.kind == MonValueKind::Object(*members),
                        i <= members@.len(),
                        extends(mid, result.diagnostics@, empty_findings_members(members@.subrange(0, i as int))),
                        extends(start, mid, own_f),
                    decreases members.len() - i,
                {
                    proof {
                        assert(members@.subrange(0, i + 1).drop_last() =~= members@.subrange(0, i as int));
                        lemma_object_child(*value, i as int);
                    }
                    let ghost before = result.diagnostics@;
                    match &members[i] {
                        Member::Pair(pair) => {
                            self.detect_empty_structures(&pair.value, result);
                            proof {
                                lemma_extends_trans(
                                    mid,
                                    before,
                                    result.diagnostics@,
                                    empty_findings_members(members@.subrange(0, i as int)),
                                    empty_findings(pair.value),
                                );
                            }
                        },
                        _ => {
                            proof {
                                assert(empty_findings_members(members@.subrange(0, i as int)) + Seq::<Finding>::empty()
                                    =~= empty_findings_members(members@.subrange(0, i as int)));
                            }
                        },
                    }
                    i = i + 1;
                }
                proof {
                    assert(members@.subrange(0, members@.len() as int) =~= members@);
                }
                proof {
                    lemma_extends_trans(start, mid, result.diagnostics@, own_f, empty_findings_members(members@));
                }
            },
            MonValueKind::Array(items) => {
                if items.len() == 0 {
                    let m = String::from_str("Empty array found - verify this is intentional");
                    result.add_diagnostic(DiagnosticCode::EmptyObject, m, None);
                } else {
                    proof { lemma_extends_refl(start); }
                }
                let ghost own_f = if items@.len() == 0 {
                    seq![(DiagnosticCode::EmptyObject, empty_array_message())]
                } else {
                    Seq::<Finding>::empty()
                };
                let ghost mid = result.diagnostics@;
                proof {
                    lemma_extends_refl(mid);
                    assert(empty_findings_items(items@.subrange(0, 0)) =~= Seq::<Finding>::empty());
                }
                let mut i: usize = 0;
                while i < items.len()
                    invariant
                        value.kind == MonValueKind::Array(*items),
                        i <= items@.len(),
                        extends(mid, result.diagnostics@, empty_findings_items(items@.subrange(0, i as int))),
                        extends(start, mid, own_f),
                    decreases items.len() - i,
                {
                    proof {
                        assert(items@.subrange(0, i + 1).drop_last() =~= items@.subrange(0, i as int));
                        lemma_array_child(*value, i as int);
                    }
                    let ghost before = result.diagnostics@;
                    self.detect_empty_structures(&items[i], result);
                    proof {
                        lemma_extends_trans(
                            mid,
                            before,
                            result.diagnostics@,
                            empty_findings_items(items@.subrange(0, i as int)),
                            empty_findings(items@[i as int]),
                        );
                    }
                    i = i + 1;
                }
                proof {
                    assert(items@.subrange(0, items@.len() as int) =~= items@);
                }
                proof {
                    lemma_extends_trans(start, mid, result.diagnostics@, own_f, empty_findings_items(items@));
                }
            },
            _ => {
                proof { lemma_extends_refl(start); }
            },
        }
    }

    /// Reports each object whose pair keys mix snake case and camel case,
    /// after what is found inside it.
    fn detect_inconsistent_naming(&self, value: &MonValue, result: &mut LintResult)
        ensures
            extends(old(result).diagnostics@, final(result).diagnostics@, naming_findings(*value)),
        decreases value,
    {
        let ghost start = result.diagnostics@;
        match &value.kind {
            MonValueKind::Object(members) => {
                let mut snake: usize = 0;
                let mut camel: usize = 0;
                proof {
                    lemma_extends_refl(start);
                    assert(naming_findings_members(members@.subrange(0, 0)) =~= Seq::<Finding>::empty());
                }
                let mut i: usize = 0;
                while i < members.len()
                    invariant
                        value.kind == MonValueKind::Object(*members),
                        i <= members@.len(),
                        extends(start, result.diagnostics@, naming_findings_members(members@.subrange(0, i as int))),
                        snake == snake_count(members@.subrange(0, i as int)),
                        camel == camel_count(members@.subrange(0, i as int)),
                        snake <= i,
                        camel <= i,
                    decreases members.len() - i,
                {
                    proof {
                        assert(members@.subrange(0, i + 1).drop_last() =~= members@.subrange(0, i as int));
                        lemma_object_child(*value, i as int);
                    }
                    let ghost before = result.diagnostics@;
                    match &members[i] {
                        Member::Pair(pair) => {
                            if contains_char(pair.key.as_str(), '_') {
                                snake = snake + 1;
                            }
                            if has_uppercase(pair.key.as_str()) {
                                camel = camel + 1;
                            }
                            self.detect_inconsistent_naming(&pair.value, result);
                            proof {
                                lemma_extends_trans(
                                    start,
                                    before,
                                    result.diagnostics@,
                                    naming_findings_members(members@.subrange(0, i as int)),
                                    naming_findings(pair.value),
                                );
                            }
                        },
                        _ => {
                            proof {
                                assert(naming_findings_members(members@.subrange(0, i as int)) + Seq::<Finding>::empty()
                                    =~= naming_findings_members(members@.subrange(0, i as int)));
                            }
                        },
                    }
                    i = i + 1;
                }
                proof {
                    assert(members@.subrange(0, members@.len() as int) =~= members@);
                }
                if snake > 0 && camel > 0 {
                    let mut m = String::from_str("Object has mixed naming styles (");
                    append_decimal(&mut m, snake);
                    m.append(" snake_case, ");
                    append_decimal(&mut m, camel);
                    m.append(" camelCase)");
                    let ghost before = result.diagnostics@;
                    result.add_diagnostic(DiagnosticCode::InconsistentNaming, m, None);
                    proof {
                        lemma_extends_trans(start, before, result.diagnostics@, naming_findings_members(members@),
                            seq![(DiagnosticCode::InconsistentNaming, naming_message(snake as nat, camel as nat))]);
                    }
                } else {
                    proof {
                        assert(naming_findings_members(members@) + Seq::<Finding>::empty() =~= naming_findings_members(members@));
                    }
                }
            },
            _ => {
                proof { lemma_extends_refl(start); }
            },
        }
    }
}

/// How many pairs of `ms` have the key `k`.
pub open spec fn key_count(ms: Seq<Member>, k: Seq<char>) -> nat
    decreases ms.len(),
{
    if ms.len() == 0 {
        0
    } else {
        key_count(ms.drop_last(), k) + match ms.last() {
            Member::Pair(p) => if p.key@ == k { 1nat } else { 0nat },
            _ => 0nat,
        }
    }
}

/// How many times `f` occurs in `fs`.
pub open spec fn finding_count(fs: Seq<Finding>, f: Finding) -> nat
    decreases fs.len(),
{
    if fs.len() == 0 {
        0
    } else {
        finding_count(fs.drop_last(), f) + if fs.last() == f { 1nat } else { 0nat }
    }
}

proof fn lemma_finding_count_concat(a: Seq<Finding>, b: Seq<Finding>, f: Finding)
    ensures
        finding_count(a + b, f) == finding_count(a, f) + finding_count(b, f),
    decreases b.len(),
{
    if b.len() == 0 {
        assert(a + b =~= a);
    } else {
        assert((a + b).drop_last() =~= a + b.drop_last());
        lemma_finding_count_concat(a, b.drop_last(), f);
    }
}

proof fn lemma_pair_keys_count(ms: Seq<Member>, k: Seq<char>)
    ensures
        pair_keys(ms).contains(k) <==> key_count(ms, k) > 0,
    decreases ms.len(),
{
    if ms.len() > 0 {
        lemma_pair_keys_count(ms.drop_last(), k);
        let d = pair_keys(ms.drop_last());
        let own = match ms.last() {
            Member::Pair(p) => seq![p.key@],
            _ => Seq::<Seq<char>>::empty(),
        };
        assert(pair_keys(ms) == d + own);
        if d.contains(k) {
            let i = choose|i: int| 0 <= i < d.len() && d[i] == k;
            assert((d + own)[i] == k);
        }
        if own.contains(k) {
            assert((d + own)[d.len() as int] == own[0]);
        }
        if (d + own).contains(k) {
            let i = choose|i: int| 0 <= i < (d + own).len() && (d + own)[i] == k;
            if i >= d.len() {
                assert(own[i - d.len()] == k);
            }
        }
    }
}

proof fn lemma_duplicate_message_injective(a: Seq<char>, b: Seq<char>)
    requires
        duplicate_key_message(a) == duplicate_key_message(b),
    ensures
        a == b,
{
    reveal_strlit("Duplicate key '");
    reveal_strlit("' in object");
    let pre = "Duplicate key '"@;
    let suf = "' in object"@;
    let m = duplicate_key_message(a);
    assert(m.len() == pre.len() + a.len() + suf.len());
    assert(duplicate_key_message(b).len() == pre.len() + b.len() + suf.len());
    assert(a.len() == b.len());
    assert(a =~= m.subrange(pre.len() as int, (pre.len() + a.len()) as int));
    assert(b =~= m.subrange(pre.len() as int, (pre.len() + b.len()) as int));
}

/// Within one object, a key that occurs `k` times gives `k - 1`
/// duplicate-key findings (none when it does not occur).
pub proof fn lemma_repeated_key_count(ms: Seq<Member>, k: Seq<char>)
    ensures
        finding_count(
            repeated_key_findings(ms),
            (DiagnosticCode::DuplicateKey, duplicate_key_message(k)),
        ) == if key_count(ms, k) > 0 {
            key_count(ms, k) - 1
        } else {
            0
        },
    decreases ms.len(),
{
    let f = (DiagnosticCode::DuplicateKey, duplicate_key_message(k));
    if ms.len() > 0 {
        let d = ms.drop_last();
        lemma_repeated_key_count(d, k);
        lemma_pair_keys_count(d, k);
        let own = repeat_of_last(ms);
        lemma_finding_count_concat(repeated_key_findings(d), own, f);
        assert(repeated_key_findings(ms) == repeated_key_findings(d) + own);
        match ms.last() {
            Member::Pair(p) => {
                let g = (DiagnosticCode::DuplicateKey, duplicate_key_message(p.key@));
                assert(seq![g].drop_last() =~= Seq::<Finding>::empty());
                assert(seq![g].last() == g);
                assert(finding_count(Seq::<Finding>::empty(), f) == 0);
                assert(finding_count(seq![g], f) == if g == f { 1nat } else { 0nat });
                if p.key@ == k {
                    assert(key_count(ms, k) == key_count(d, k) + 1);
                    if key_count(d, k) > 0 {
                        assert(own == seq![g]);
                    } else {
                        assert(own == Seq::<Finding>::empty());
                    }
                } else {
                    assert(key_count(ms, k) == key_count(d, k));
                    if g == f {
                        lemma_duplicate_message_injective(p.key@, k);
                    }
                    assert(finding_count(own, f) == 0);
                }
            },
            _ => {
                assert(key_count(ms, k) == key_count(d, k));
                assert(own == Seq::<Finding>::empty());
            },
        }
    }
}

/// Whether no pair of `ms` holds an object or an array.
pub open spec fn flat_pairs(ms: Seq<Member>) -> bool {
    forall|i: int|
        0 <= i < ms.len() && (#[trigger] ms[i]) is Pair ==> !(ms[i]->Pair_0.value.kind is Object
            || ms[i]->Pair_0.value.kind is Array)
}

proof fn lemma_flat_duplicates(ms: Seq<Member>)
    requires
        flat_pairs(ms),
    ensures
        duplicate_findings_members(ms) == repeated_key_findings(ms),
    decreases ms.len(),
{
    if ms.len() > 0 {
        let d = ms.drop_last();
        assert(flat_pairs(d)) by {
            assert forall|i: int| 0 <= i < d.len() && (#[trigger] d[i]) is Pair implies !(
            d[i]->Pair_0.value.kind is Object || d[i]->Pair_0.value.kind is Array) by {
                assert(d[i] == ms[i]);
            }
        }
        lemma_flat_duplicates(d);
        assert(ms[ms.len() - 1] == ms.last());
        match ms.last() {
            Member::Pair(p) => {
                assert(duplicate_findings(p.value) =~= Seq::<Finding>::empty());
            },
            _ => {},
        }
        assert(duplicate_findings_members(ms) =~= repeated_key_findings(ms));
    }
}

/// In an object whose pair values are not containers, a key that occurs
/// `k` times gives exactly `k - 1` duplicate-key findings.
pub proof fn lemma_duplicate_keys(v: MonValue, k: Seq<char>)
    requires
        v.kind is Object,
        flat_pairs(v.kind->Object_0@),
        key_count(v.kind->Object_0@, k) > 0,
    ensures
        finding_count(
            duplicate_findings(v),
            (DiagnosticCode::DuplicateKey, duplicate_key_message(k)),
        ) == key_count(v.kind->Object_0@, k) - 1,
{
    lemma_flat_duplicates(v.kind->Object_0@);
    lemma_repeated_key_count(v.kind->Object_0@, k);
}

/// A name occurs among the first occurrences exactly when it occurs at all.
pub proof fn lemma_first_occurrences_contains(s: Seq<Seq<char>>, x: Seq<char>)
    ensures
        first_occurrences(s).contains(x) <==> s.contains(x),
    decreases s.len(),
{
    if s.len() > 0 {
        let d = s.drop_last();
        lemma_first_occurrences_contains(d, x);
        let f = first_occurrences(d);
        if f.contains(s.last()) {
            if s.contains(x) {
                let i = choose|i: int| 0 <= i < s.len() && s[i] == x;
                if i < d.len() {
                    assert(d[i] == x);
                } else {
                    lemma_first_occurrences_contains(d, s.last());
                }
            }
        } else {
            if f.push(s.last()).contains(x) {
                let i = choose|i: int| 0 <= i < f.len() + 1 && f.push(s.last())[i] == x;
                if i == f.len() {
                    assert(s[s.len() - 1] == x);
                } else {
                    assert(f[i] == x);
                }
            }
            if s.contains(x) {
                let i = choose|i: int| 0 <= i < s.len() && s[i] == x;
                if i < d.len() {
                    assert(d[i] == x);
                    let j = choose|j: int| 0 <= j < f.len() && f[j] == x;
                    assert(f.push(s.last())[j] == x);
                } else {
                    assert(f.push(s.last())[f.len() as int] == x);
                }
            }
        }
        if d.contains(x) {
            let i = choose|i: int| 0 <= i < d.len() && d[i] == x;
            assert(s[i] == x);
        }
    }
}

/// Within one object, the repeated keys number the pairs minus the
/// distinct keys.
pub proof fn lemma_repeat_len(ms: Seq<Member>)
    ensures
        repeated_key_findings(ms).len() + first_occurrences(pair_keys(ms)).len() == pair_keys(
            ms,
        ).len(),
    decreases ms.len(),
{
    if ms.len() > 0 {
        let d = ms.drop_last();
        lemma_repeat_len(d);
        match ms.last() {
            Member::Pair(p) => {
                assert(pair_keys(ms) == pair_keys(d).push(p.key@)) by {
                    assert(pair_keys(d) + seq![p.key@] =~= pair_keys(d).push(p.key@));
                }
                assert(pair_keys(ms).drop_last() =~= pair_keys(d));
                assert(pair_keys(ms).last() == p.key@);
                lemma_first_occurrences_contains(pair_keys(d), p.key@);
            },
            _ => {
                assert(pair_keys(ms) =~= pair_keys(d));
            },
        }
    }
}

/// Over every object at `v` and below (reached through pair values and
/// array items), its pairs minus its distinct keys, summed.
pub open spec fn key_excess(v: MonValue) -> nat
    decreases v, 0nat,
{
    match v.kind {
        MonValueKind::Object(ms) => (pair_keys(ms@).len() - first_occurrences(pair_keys(ms@)).len()) as nat
            + key_excess_members(ms@),
        MonValueKind::Array(vs) => key_excess_items(vs@),
        _ => 0,
    }
}

pub open spec fn key_excess_members(ms: Seq<Member>) -> nat
    decreases ms, ms.len(),
{
    if ms.len() == 0 {
        0
    } else {
        key_excess_members(ms.drop_last()) + match ms.last() {
            Member::Pair(p) => key_excess(p.value),
            _ => 0nat,
        }
    }
}

pub open spec fn key_excess_items(vs: Seq<MonValue>) -> nat
    decreases vs, vs.len(),
{
    if vs.len() == 0 {
        0
    } else {
        key_excess_items(vs.drop_last()) + key_excess(vs.last())
    }
}

} // verus!
