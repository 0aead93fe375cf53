//! Task domains: which categories and resources belong to the task at hand.
//!
//! A domain without categories grants none; one without prefixes confines no resource.
use crate::collections::KeySet;
use crate::rbac::dynamic::metrics::ActionCategory;
use crate::score::Score;
use crate::text::{chars_of, starts_with};
use vstd::prelude::*;

verus! {

/// The bits of 0.3.
pub const DOMAIN_RESOURCE_MISMATCH_BITS: u64 = 0x3FD3_3333_3333_3333;

/// The bits of 0.15.
pub const ADJACENT_DOMAIN_BITS: u64 = 0x3FC3_3333_3333_3333;

/// The bits of 0.45.
pub const ADJACENT_RESOURCE_MISMATCH_BITS: u64 = 0x3FDC_CCCC_CCCC_CCCD;

/// The bits of 0.6.
pub const OUT_OF_DOMAIN_BITS: u64 = 0x3FE3_3333_3333_3333;

/// The bits of 1.0.
pub const FULL_TRUST_BITS: u64 = 0x3FF0_0000_0000_0000;

/// The parts of a path that come after a stack of components: empty parts and single dots are
/// dropped, two dots take the last component away.
pub open spec fn resolved(path: Seq<char>, part: Seq<char>, stack: Seq<Seq<char>>) -> Seq<Seq<char>>
    decreases path.len(),
{
    if path.len() == 0 {
        entered(stack, part)
    } else if path[0] == '/' {
        resolved(path.skip(1), Seq::empty(), entered(stack, part))
    } else {
        resolved(path.skip(1), part.push(path[0]), stack)
    }
}

/// A stack of components after one more part.
pub open spec fn entered(stack: Seq<Seq<char>>, part: Seq<char>) -> Seq<Seq<char>> {
    if part.len() == 0 || part == seq!['.'] {
        stack
    } else if part == seq!['.', '.'] {
        if stack.len() == 0 {
            stack
        } else {
            stack.drop_last()
        }
    } else {
        stack.push(part)
    }
}

/// The components of a path.
pub open spec fn components(path: Seq<char>) -> Seq<Seq<char>> {
    resolved(path, Seq::empty(), Seq::empty())
}

/// Components with a slash before each.
pub open spec fn joined(components: Seq<Seq<char>>) -> Seq<char>
    decreases components.len(),
{
    if components.len() == 0 {
        Seq::empty()
    } else {
        joined(components.drop_last()) + seq!['/'] + components.last()
    }
}

/// A path with its dots resolved, from the root.
pub open spec fn normalized(path: Seq<char>) -> Seq<char> {
    if components(path).len() == 0 {
        seq!['/']
    } else {
        joined(components(path))
    }
}

/// Whether a part of a path names something: it is not empty, not dots, and holds no slash.
pub open spec fn is_plain(part: Seq<char>) -> bool {
    part.len() > 0 && part != seq!['.'] && part != seq!['.', '.'] && !part.contains('/')
}

proof fn lemma_resolved_plain(path: Seq<char>, part: Seq<char>, stack: Seq<Seq<char>>)
    requires
        !part.contains('/'),
        forall|i: int| 0 <= i < stack.len() ==> is_plain(#[trigger] stack[i]),
    ensures
        forall|i: int| 0 <= i < resolved(path, part, stack).len() ==> is_plain(#[trigger] resolved(path, part, stack)[i]),
    decreases path.len(),
{
    let next = entered(stack, part);
    assert forall|i: int| 0 <= i < next.len() implies is_plain(#[trigger] next[i]) by {
        if i < stack.len() {
            assert(next[i] == stack[i]);
        }
    }
    if path.len() > 0 {
        if path[0] == '/' {
            assert(!Seq::<char>::empty().contains('/'));
            lemma_resolved_plain(path.skip(1), Seq::empty(), next);
            assert(resolved(path, part, stack) == resolved(path.skip(1), Seq::empty(), next));
        } else {
            let longer = part.push(path[0]);
            assert(!longer.contains('/')) by {
                assert forall|i: int| 0 <= i < longer.len() implies longer[i] != '/' by {
                    if i < part.len() {
                        assert(part.contains(part[i]));
                    }
                }
            }
            lemma_resolved_plain(path.skip(1), longer, stack);
            assert(resolved(path, part, stack) == resolved(path.skip(1), longer, stack));
        }
    } else {
        assert(resolved(path, part, stack) == next);
    }
}

/// However a path is written, its components name something: no dots are left, so that nothing
/// reaches above the root.
pub proof fn law_components_are_plain(path: Seq<char>, i: int)
    requires
        0 <= i < components(path).len(),
    ensures
        is_plain(components(path)[i]),
{
    assert(!Seq::<char>::empty().contains('/'));
    lemma_resolved_plain(path, Seq::empty(), Seq::empty());
}

proof fn lemma_resolved_over(a: Seq<char>, b: Seq<char>, part: Seq<char>, stack: Seq<Seq<char>>)
    requires
        !a.contains('/'),
    ensures
        resolved(a + seq!['/'] + b, part, stack) == resolved(b, Seq::empty(), entered(stack, part + a)),
    decreases a.len(),
{
    let whole = a + seq!['/'] + b;
    if a.len() == 0 {
        assert(whole.skip(1) =~= b);
        assert(part + a =~= part);
    } else {
        assert(a.contains(a[0]));
        let rest = a.skip(1);
        assert(!rest.contains('/')) by {
            assert forall|i: int| 0 <= i < rest.len() implies rest[i] != '/' by {
                assert(a.contains(a[i + 1]));
            }
        }
        assert(whole.skip(1) =~= rest + seq!['/'] + b);
        assert(part.push(a[0]) + rest =~= part + a);
        lemma_resolved_over(rest, b, part.push(a[0]), stack);
    }
}

proof fn lemma_resolved_last(a: Seq<char>, part: Seq<char>, stack: Seq<Seq<char>>)
    requires
        !a.contains('/'),
    ensures
        resolved(a, part, stack) == entered(stack, part + a),
    decreases a.len(),
{
    if a.len() == 0 {
        assert(part + a =~= part);
    } else {
        assert(a.contains(a[0]));
        let rest = a.skip(1);
        assert(!rest.contains('/')) by {
            assert forall|i: int| 0 <= i < rest.len() implies rest[i] != '/' by {
                assert(a.contains(a[i + 1]));
            }
        }
        assert(part.push(a[0]) + rest =~= part + a);
        lemma_resolved_last(rest, part.push(a[0]), stack);
    }
}

proof fn lemma_joined_resolves(parts: Seq<Seq<char>>, tail: Seq<char>)
    requires
        parts.len() > 0,
        forall|i: int| 0 <= i < parts.len() ==> is_plain(#[trigger] parts[i]),
        tail.len() == 0 || tail[0] == '/',
    ensures
        resolved(joined(parts) + tail, Seq::empty(), Seq::empty()) == (if tail.len() == 0 {
            parts
        } else {
            resolved(tail.skip(1), Seq::empty(), parts)
        }),
    decreases parts.len(),
{
    let rest = parts.drop_last();
    let last = parts.last();
    assert(is_plain(parts[parts.len() - 1]));
    let slash = seq!['/'];
    let path = joined(parts) + tail;
    let after = last + tail;
    assert(path =~= joined(rest) + (slash + after));
    if rest.len() > 0 {
        assert forall|i: int| 0 <= i < rest.len() implies is_plain(#[trigger] rest[i]) by {
            assert(rest[i] == parts[i]);
        }
        lemma_joined_resolves(rest, slash + after);
        assert((slash + after).skip(1) =~= after);
    } else {
        assert(joined(rest) =~= Seq::<char>::empty());
        assert(path =~= slash + after);
        assert(path.skip(1) =~= after);
        assert(entered(Seq::<Seq<char>>::empty(), Seq::<char>::empty()) =~= Seq::<Seq<char>>::empty());
        assert(rest =~= Seq::<Seq<char>>::empty());
    }
    assert(resolved(path, Seq::empty(), Seq::empty()) == resolved(after, Seq::empty(), rest));
    assert(Seq::<char>::empty() + last =~= last);
    assert(entered(rest, last) =~= parts);
    if tail.len() == 0 {
        assert(after =~= last);
        lemma_resolved_last(last, Seq::empty(), rest);
    } else {
        assert(after =~= last + slash + tail.skip(1));
        lemma_resolved_over(last, tail.skip(1), Seq::empty(), rest);
    }
}

/// A path that is resolved stays as it is when it is resolved again.
pub proof fn law_normalizing_twice_is_normalizing_once(path: Seq<char>)
    ensures
        normalized(normalized(path)) == normalized(path),
{
    let parts = components(path);
    if parts.len() == 0 {
        let root = seq!['/'];
        assert(root.skip(1) =~= Seq::<char>::empty());
        reveal_with_fuel(resolved, 3);
        assert(components(root) =~= Seq::<Seq<char>>::empty());
    } else {
        assert forall|i: int| 0 <= i < parts.len() implies is_plain(#[trigger] parts[i]) by {
            law_components_are_plain(path, i);
        }
        lemma_joined_resolves(parts, Seq::empty());
        assert(joined(parts) + Seq::<char>::empty() =~= joined(parts));
    }
}

/// The task that someone works on.
pub struct TaskDomain {
    /// A name for people.
    pub domain_name: String,
    /// The categories that belong to the task.
    pub allowed_action_categories: KeySet<ActionCategory>,
    /// The beginnings of the resources that belong to the task; none confines nothing.
    pub allowed_resource_prefixes: Vec<String>,
    /// The trust that is expected, from zero to one.
    pub trust_floor: Score,
}

/// A number brought into the range from zero to one; what is not a number stays.
pub open spec fn clamped(x: Score) -> Score {
    if x.below(crate::score::zero()) {
        crate::score::zero()
    } else if (Score { bits: FULL_TRUST_BITS }).below(x) {
        Score { bits: FULL_TRUST_BITS }
    } else {
        x
    }
}

/// The characters of each component.
spec fn shown(parts: Seq<Vec<char>>) -> Seq<Seq<char>> {
    Seq::new(parts.len(), |i: int| parts[i]@)
}

/// Adds a part to a stack of components.
fn enter(stack: &mut Vec<Vec<char>>, part: Vec<char>)
    ensures
        shown(final(stack)@) == entered(shown(old(stack)@), part@),
{
    let ghost before = shown(stack@);
    let ghost p = part@;
    if part.len() == 0 || (part.len() == 1 && part[0] == '.') {
        assert(p.len() == 1 ==> p =~= seq!['.']);
        return ;
    }
    if part.len() == 2 && part[0] == '.' && part[1] == '.' {
        assert(p =~= seq!['.', '.']);
        let _ = stack.pop();
        assert(shown(stack@) =~= entered(before, p));
        return ;
    }
    proof {
        assert(p != seq!['.']) by {
            if p == seq!['.'] {
                assert(p[0] == '.' && p.len() == 1);
            }
        }
        assert(p != seq!['.', '.']) by {
            if p == seq!['.', '.'] {
                assert(p[0] == '.' && p[1] == '.' && p.len() == 2);
            }
        }
    }
    stack.push(part);
    assert(shown(stack@) =~= before.push(p));
}

/// Components with a slash before each.
fn join(parts: &Vec<Vec<char>>) -> (r: String)
    ensures
        r@ == joined(shown(parts@)),
{
    let mut r = String::new();
    let mut i: usize = 0;
    let ghost all = shown(parts@);
    assert(r@ =~= joined(all.take(0)));
    while i < parts.len()
        invariant
            i <= parts@.len(),
            all == shown(parts@),
            r@ == joined(all.take(i as int)),
        decreases parts.len() - i,
    {
        let ghost before = r@;
        r.push('/');
        let mut j: usize = 0;
        while j < parts[i].len()
            invariant
                i < parts@.len(),
                j <= parts@[i as int]@.len(),
                r@ == before + seq!['/'] + parts@[i as int]@.take(j as int),
            decreases parts@[i as int]@.len() - j,
        {
            r.push(parts[i][j]);
            assert(r@ =~= before + seq!['/'] + parts@[i as int]@.take(j + 1));
            j = j + 1;
        }
        proof {
            assert(parts@[i as int]@.take(j as int) =~= all[i as int]);
            assert(all.take(i + 1).drop_last() =~= all.take(i as int));
            assert(all.take(i + 1).last() == all[i as int]);
        }
        i = i + 1;
    }
    assert(all.take(all.len() as int) =~= all);
    r
}

impl TaskDomain {
    /// Whether the value is well formed.
    pub open spec fn wf(&self) -> bool {
        self.allowed_action_categories.wf()
    }

    /// Whether a category belongs to the task.
    pub open spec fn grants(&self, category: ActionCategory) -> bool {
        self.allowed_action_categories@.contains(category)
    }

    /// Whether a resource belongs to the task.
    pub open spec fn reaches(&self, path: Seq<char>) -> bool {
        self.allowed_resource_prefixes@.len() == 0 || exists|i: int|
            0 <= i < self.allowed_resource_prefixes@.len() && crate::text::has_prefix(
                normalized(path),
                (#[trigger] self.allowed_resource_prefixes@[i])@,
            )
    }

    /// Whether a resource belongs to the task; a request without one is not confined.
    pub open spec fn admits(&self, path: Option<Seq<char>>) -> bool {
        path is Some ==> self.reaches(path->Some_0)
    }

    /// A domain. The trust is brought into range, the rest is taken as it is.
    pub fn new(name: &str, categories: KeySet<ActionCategory>, prefixes: Vec<String>, trust_floor: Score) -> (r: Self)
        requires
            categories.wf(),
        ensures
            r.wf(),
            r.domain_name@ == name@,
            r.allowed_action_categories == categories,
            r.allowed_resource_prefixes == prefixes,
            r.trust_floor == clamped(trust_floor),
    {
        let floor = if trust_floor.is_below(Score::from_bits(0)) {
            Score::from_bits(0)
        } else if Score::from_bits(FULL_TRUST_BITS).is_below(trust_floor) {
            Score::from_bits(FULL_TRUST_BITS)
        } else {
            trust_floor
        };
        TaskDomain {
            domain_name: name.to_owned(),
            allowed_action_categories: categories,
            allowed_resource_prefixes: prefixes,
            trust_floor: floor,
        }
    }

    /// Whether a resource belongs to the task.
    #[must_use]
    pub fn is_resource_allowed(&self, path: &str) -> (r: bool)
        ensures
            r == self.reaches(path@),
    {
        if self.allowed_resource_prefixes.len() == 0 {
            return true;
        }
        let normalized_path = Self::normalize_path(path);
        let mut i: usize = 0;
        while i < self.allowed_resource_prefixes.len()
            invariant
                normalized_path@ == normalized(path@),
                self.allowed_resource_prefixes@.len() > 0,
                i <= self.allowed_resource_prefixes@.len(),
                forall|j: int|
                    0 <= j < i ==> !crate::text::has_prefix(
                        normalized(path@),
                        (#[trigger] self.allowed_resource_prefixes@[j])@,
                    ),
            decreases self.allowed_resource_prefixes.len() - i,
        {
            if starts_with(normalized_path.as_str(), self.allowed_resource_prefixes[i].as_str()) {
                return true;
            }
            i = i + 1;
        }
        false
    }

    /// A path with its dots resolved, from the root.
    fn normalize_path(path: &str) -> (r: String)
        ensures
            r@ == normalized(path@),
    {
        let chars = chars_of(path);
        let mut stack: Vec<Vec<char>> = Vec::new();
        let mut part: Vec<char> = Vec::new();
        let mut i: usize = 0;
        assert(shown(stack@) =~= Seq::<Seq<char>>::empty());
        assert(path@.skip(0) =~= path@);
        while i < chars.len()
            invariant
                chars@ == path@,
                i <= chars@.len(),
                components(path@) == resolved(path@.skip(i as int), part@, shown(stack@)),
            decreases chars.len() - i,
        {
            let c = chars[i];
            assert(path@.skip(i as int)[0] == c);
            assert(path@.skip(i as int).skip(1) =~= path@.skip(i + 1));
            if c == '/' {
                let mut full: Vec<char> = Vec::new();
                std::mem::swap(&mut full, &mut part);
                assert(part@ =~= Seq::<char>::empty());
                enter(&mut stack, full);
            } else {
                part.push(c);
            }
            i = i + 1;
        }
        enter(&mut stack, part);
        if stack.len() == 0 {
            let mut root = String::new();
            root.push('/');
            assert(root@ =~= seq!['/']);
            return root;
        }
        join(&stack)
    }
}

/// The task at hand, and tasks next to it.
pub struct DomainScope {
    /// The task at hand.
    pub current_task_domain: TaskDomain,
    /// Tasks from which categories may be borrowed.
    pub adjacent_domains: Vec<TaskDomain>,
}

/// How a request lies to a scope.
#[derive(Debug, Clone, Copy, PartialEq, Eq, Structural)]
pub enum DomainMatch {
    /// Within the task.
    InDomain,
    /// Borrowed from a task next to it.
    Adjacent {
        /// What that costs.
        excess_weight: Score,
    },
    /// The category is granted, the resource is not.
    DomainResourceMismatch {
        /// What that costs.
        excess_weight: Score,
    },
    /// No task grants the category.
    OutOfDomain {
        /// What that costs.
        excess_weight: Score,
    },
}

impl DomainMatch {
    /// What the match costs.
    pub open spec fn costs(self) -> Score {
        match self {
            DomainMatch::InDomain => crate::score::zero(),
            DomainMatch::Adjacent { excess_weight } => excess_weight,
            DomainMatch::DomainResourceMismatch { excess_weight } => excess_weight,
            DomainMatch::OutOfDomain { excess_weight } => excess_weight,
        }
    }

    /// What the match costs.
    #[must_use]
    pub fn excess_weight(&self) -> (r: Score)
        ensures
            r == self.costs(),
    {
        match self {
            DomainMatch::InDomain => Score::from_bits(0),
            DomainMatch::Adjacent { excess_weight } => *excess_weight,
            DomainMatch::DomainResourceMismatch { excess_weight } => *excess_weight,
            DomainMatch::OutOfDomain { excess_weight } => *excess_weight,
        }
    }
}

impl DomainScope {
    /// Whether the value is well formed.
    pub open spec fn wf(&self) -> bool {
        self.current_task_domain.wf() && forall|i: int|
            0 <= i < self.adjacent_domains@.len() ==> (#[trigger] self.adjacent_domains@[i]).wf()
    }

    /// Whether some task next to the one at hand grants a category.
    pub open spec fn borrows(&self, category: ActionCategory) -> bool {
        exists|i: int| 0 <= i < self.adjacent_domains@.len() && (#[trigger] self.adjacent_domains@[i]).grants(category)
    }

    /// Whether some task next to the one at hand grants a category and has the resource too.
    pub open spec fn borrows_with(&self, category: ActionCategory, path: Option<Seq<char>>) -> bool {
        exists|i: int|
            0 <= i < self.adjacent_domains@.len() && (#[trigger] self.adjacent_domains@[i]).grants(category)
                && self.adjacent_domains@[i].admits(path)
    }

    /// How a request lies to the scope: the task at hand is asked first, then the tasks next to
    /// it, and a resource only of a task that grants the category.
    pub open spec fn lies(&self, category: ActionCategory, path: Option<Seq<char>>) -> DomainMatch {
        if self.current_task_domain.grants(category) {
            if self.current_task_domain.admits(path) {
                DomainMatch::InDomain
            } else {
                DomainMatch::DomainResourceMismatch { excess_weight: Score { bits: DOMAIN_RESOURCE_MISMATCH_BITS } }
            }
        } else if self.borrows_with(category, path) {
            DomainMatch::Adjacent { excess_weight: Score { bits: ADJACENT_DOMAIN_BITS } }
        } else if self.borrows(category) {
            DomainMatch::DomainResourceMismatch { excess_weight: Score { bits: ADJACENT_RESOURCE_MISMATCH_BITS } }
        } else {
            DomainMatch::OutOfDomain { excess_weight: Score { bits: OUT_OF_DOMAIN_BITS } }
        }
    }

    /// A scope of one task.
    #[must_use]
    pub fn single(domain: TaskDomain) -> (r: Self)
        requires
            domain.wf(),
        ensures
            r.wf(),
            r.current_task_domain == domain,
            r.adjacent_domains@.len() == 0,
    {
        DomainScope { current_task_domain: domain, adjacent_domains: Vec::new() }
    }

    /// A scope of a task with tasks next to it.
    #[must_use]
    pub fn with_adjacent(domain: TaskDomain, adjacent: Vec<TaskDomain>) -> (r: Self)
        requires
            domain.wf(),
            forall|i: int| 0 <= i < adjacent@.len() ==> (#[trigger] adjacent@[i]).wf(),
        ensures
            r.wf(),
            r.current_task_domain == domain,
            r.adjacent_domains == adjacent,
    {
        DomainScope { current_task_domain: domain, adjacent_domains: adjacent }
    }

    /// How a request lies to the scope.
    #[must_use]
    pub fn evaluate(&self, category: &ActionCategory, resource_path: Option<&str>) -> (r: DomainMatch)
        requires
            self.wf(),
        ensures
            r == self.lies(*category, crate::text::str_text(resource_path)),
    {
        let ghost path = crate::text::str_text(resource_path);
        let in_domain = self.current_task_domain.allowed_action_categories.contains(category);
        let resource_ok = admits_path(&self.current_task_domain, resource_path);
        if in_domain && resource_ok {
            return DomainMatch::InDomain;
        }
        if in_domain && !resource_ok {
            return DomainMatch::DomainResourceMismatch { excess_weight: Score::from_bits(DOMAIN_RESOURCE_MISMATCH_BITS) };
        }
        let mut in_adjacent = false;
        let mut i: usize = 0;
        while i < self.adjacent_domains.len()
            invariant
                self.wf(),
                path == crate::text::str_text(resource_path),
                !self.current_task_domain.grants(*category),
                i <= self.adjacent_domains@.len(),
                in_adjacent <==> exists|j: int| 0 <= j < i && (#[trigger] self.adjacent_domains@[j]).grants(*category),
                forall|j: int|
                    0 <= j < i ==> !((#[trigger] self.adjacent_domains@[j]).grants(*category) && self.adjacent_domains@[j].admits(
                        path,
                    )),
            decreases self.adjacent_domains.len() - i,
        {
            let d = &self.adjacent_domains[i];
            if d.allowed_action_categories.contains(category) {
                assert(self.adjacent_domains@[i as int].grants(*category));
                in_adjacent = true;
                if admits_path(d, resource_path) {
                    return DomainMatch::Adjacent { excess_weight: Score::from_bits(ADJACENT_DOMAIN_BITS) };
                }
            }
            i = i + 1;
        }
        if in_adjacent {
            return DomainMatch::DomainResourceMismatch { excess_weight: Score::from_bits(ADJACENT_RESOURCE_MISMATCH_BITS) };
        }
        DomainMatch::OutOfDomain { excess_weight: Score::from_bits(OUT_OF_DOMAIN_BITS) }
    }
}

fn admits_path(domain: &TaskDomain, path: Option<&str>) -> (r: bool)
    ensures
        r == domain.admits(crate::text::str_text(path)),
{
    match path {
        Some(p) => domain.is_resource_allowed(p),
        None => true,
    }
}

/// Each way of lying to a scope costs more than the one before: within, borrowed, without the
/// resource, borrowed without the resource, outside.
pub proof fn law_leaving_the_domain_costs_more()
    ensures
        DomainMatch::InDomain.costs().below(Score { bits: ADJACENT_DOMAIN_BITS }),
        (Score { bits: ADJACENT_DOMAIN_BITS }).below(Score { bits: DOMAIN_RESOURCE_MISMATCH_BITS }),
        (Score { bits: DOMAIN_RESOURCE_MISMATCH_BITS }).below(Score { bits: ADJACENT_RESOURCE_MISMATCH_BITS }),
        (Score { bits: ADJACENT_RESOURCE_MISMATCH_BITS }).below(Score { bits: OUT_OF_DOMAIN_BITS }),
{
}

/// A category that one task next to the one at hand grants does not borrow the resources of
/// another: it takes a single task that has both.
pub proof fn law_no_mixed_borrowing(scope: &DomainScope, category: ActionCategory, path: Option<Seq<char>>)
    requires
        !scope.current_task_domain.grants(category),
        forall|i: int|
            0 <= i < scope.adjacent_domains@.len() && (#[trigger] scope.adjacent_domains@[i]).grants(category)
                ==> !scope.adjacent_domains@[i].admits(path),
    ensures
        !(scope.lies(category, path) is Adjacent),
        !(scope.lies(category, path) is InDomain),
{
}

/// A scope without categories grants nothing, and one without prefixes confines no resource.
pub proof fn law_empty_values(domain: &TaskDomain, category: ActionCategory, path: Seq<char>)
    ensures
        domain.allowed_action_categories@ == Set::<ActionCategory>::empty() ==> !domain.grants(category),
        domain.allowed_resource_prefixes@.len() == 0 ==> domain.reaches(path),
{
}

/// What comes after a slash is taken up on top of what came before it.
proof fn lemma_resolved_split(a: Seq<char>, b: Seq<char>, part: Seq<char>, stack: Seq<Seq<char>>)
    ensures
        resolved(a + seq!['/'] + b, part, stack) == resolved(b, Seq::empty(), resolved(a, part, stack)),
    decreases a.len(),
{
    let whole = a + seq!['/'] + b;
    if a.len() == 0 {
        assert(whole.skip(1) =~= b);
    } else {
        assert(whole.skip(1) =~= a.skip(1) + seq!['/'] + b);
        if a[0] == '/' {
            lemma_resolved_split(a.skip(1), b, Seq::empty(), entered(stack, part));
        } else {
            lemma_resolved_split(a.skip(1), b, part.push(a[0]), stack);
        }
    }
}

/// One more part behind a path: an empty part and a single dot change nothing, two dots take the last
/// component away, and a name is added behind a slash. Nothing reaches above the root, and the empty
/// path is the root.
pub proof fn law_parts_of_a_path(path: Seq<char>, name: Seq<char>)
    requires
        is_plain(name),
    ensures
        normalized(Seq::<char>::empty()) == seq!['/'],
        normalized(path + seq!['/']) == normalized(path),
        normalized(path + seq!['/', '.']) == normalized(path),
        normalized(path + seq!['/'] + name) == (if normalized(path) == seq!['/'] {
            seq!['/'] + name
        } else {
            normalized(path) + seq!['/'] + name
        }),
        normalized(path + seq!['/'] + name + seq!['/', '.', '.']) == normalized(path),
        normalized(seq!['/', '.', '.']) == seq!['/'],
{
    let none = Seq::<char>::empty();
    let slash = seq!['/'];
    let dot = seq!['.'];
    let dots = seq!['.', '.'];
    let parts = components(path);
    assert(resolved(none, none, Seq::empty()) =~= Seq::<Seq<char>>::empty());
    lemma_resolved_split(path, none, none, Seq::empty());
    assert(path + slash + none =~= path + slash);
    assert(resolved(none, none, parts) == entered(parts, none));
    lemma_resolved_split(path, dot, none, Seq::empty());
    assert(path + slash + dot =~= path + seq!['/', '.']);
    assert(!dot.contains('/')) by {
        assert(dot[0] == '.');
    }
    lemma_resolved_last(dot, none, parts);
    assert(none + dot =~= dot);
    lemma_resolved_split(path, name, none, Seq::empty());
    lemma_resolved_last(name, none, parts);
    assert(none + name =~= name);
    let more = parts.push(name);
    assert(components(path + slash + name) == more);
    assert(more.drop_last() =~= parts);
    assert(joined(more) == joined(parts) + slash + name);
    assert(!dots.contains('/')) by {
        assert(dots[0] == '.' && dots[1] == '.');
    }
    lemma_resolved_split(path + slash + name, dots, none, Seq::empty());
    assert(path + slash + name + slash + dots =~= path + slash + name + seq!['/', '.', '.']);
    lemma_resolved_last(dots, none, more);
    assert(none + dots =~= dots);
    assert(dots != dot) by {
        assert(dots.len() != dot.len());
    }
    assert(entered(more, dots) == more.drop_last());
    lemma_resolved_split(none, dots, none, Seq::empty());
    assert(none + slash + dots =~= seq!['/', '.', '.']);
    lemma_resolved_last(dots, none, Seq::empty());
    assert(joined(Seq::<Seq<char>>::empty()) =~= none);
    assert(none + slash + name =~= slash + name);
    if parts.len() > 0 {
        law_components_are_plain(path, parts.len() - 1);
        assert(joined(parts).len() >= 2);
        assert(normalized(path) != slash);
    }
}

/// What is resolved of two paths with a slash between them depends on the first only by what it is
/// resolved to, and a path without a slash before it is taken from the root.
pub proof fn law_resolving_a_path_in_two(a: Seq<char>, b: Seq<char>)
    ensures
        normalized(seq!['/'] + b) == normalized(b),
        normalized(a + seq!['/'] + b) == normalized(normalized(a) + seq!['/'] + b),
{
    let none = Seq::<char>::empty();
    lemma_resolved_split(a, b, none, Seq::empty());
    lemma_resolved_split(normalized(a), b, none, Seq::empty());
    lemma_resolved_split(none, b, none, Seq::empty());
    assert(none + seq!['/'] + b =~= seq!['/'] + b);
    assert(resolved(none, none, Seq::empty()) =~= Seq::<Seq<char>>::empty());
    let parts = components(a);
    if parts.len() == 0 {
        let root = seq!['/'];
        assert(root.skip(1) =~= none);
        reveal_with_fuel(resolved, 3);
        assert(components(root) =~= Seq::<Seq<char>>::empty());
        assert(parts =~= Seq::<Seq<char>>::empty());
    } else {
        assert forall|i: int| 0 <= i < parts.len() implies is_plain(#[trigger] parts[i]) by {
            law_components_are_plain(a, i);
        }
        lemma_joined_resolves(parts, none);
        assert(joined(parts) + none =~= joined(parts));
    }
}

/// A resource belongs to a task exactly if the task confines none, or the resolved path is one of its
/// beginnings and something behind it.
pub proof fn law_resources_of_a_task(domain: &TaskDomain, path: &str, r: bool)
    requires
        call_ensures(TaskDomain::is_resource_allowed, (domain, path), r),
    ensures
        r <==> domain.allowed_resource_prefixes@.len() == 0 || exists|i: int, rest: Seq<char>|
            0 <= i < domain.allowed_resource_prefixes@.len() && normalized(path@) == #[trigger] (
            domain.allowed_resource_prefixes@[i]@ + rest),
{
    lemma_reaches(domain, path@);
}

proof fn lemma_reaches(domain: &TaskDomain, path: Seq<char>)
    ensures
        domain.reaches(path) <==> domain.allowed_resource_prefixes@.len() == 0 || exists|i: int, rest: Seq<char>|
            0 <= i < domain.allowed_resource_prefixes@.len() && normalized(path) == #[trigger] (
            domain.allowed_resource_prefixes@[i]@ + rest),
{
    let all = domain.allowed_resource_prefixes@;
    if exists|i: int| 0 <= i < all.len() && crate::text::has_prefix(normalized(path), (#[trigger] all[i])@) {
        let i = choose|i: int| 0 <= i < all.len() && crate::text::has_prefix(normalized(path), (#[trigger] all[i])@);
        crate::text::lemma_prefix_rest(normalized(path), all[i]@);
        let rest = choose|rest: Seq<char>| normalized(path) == #[trigger] (all[i]@ + rest);
        assert(normalized(path) == all[i]@ + rest);
    }
    if exists|i: int, rest: Seq<char>| 0 <= i < all.len() && normalized(path) == #[trigger] (all[i]@ + rest) {
        let (i, rest) = choose|i: int, rest: Seq<char>|
            0 <= i < all.len() && normalized(path) == #[trigger] (all[i]@ + rest);
        crate::text::lemma_prefix_rest(normalized(path), all[i]@);
        assert(crate::text::has_prefix(normalized(path), all[i]@));
    }
}

/// Whether a task has what is acted upon: nothing is, the task confines nothing, or the resolved path
/// has one of its beginnings.
pub open spec fn has_resource(domain: TaskDomain, path: Option<&str>) -> bool {
    path matches Some(p) ==> domain.allowed_resource_prefixes@.len() == 0 || exists|i: int, rest: Seq<char>|
        0 <= i < domain.allowed_resource_prefixes@.len() && normalized(p@) == #[trigger] (
        domain.allowed_resource_prefixes@[i]@ + rest)
}

/// How a request lies to a scope. It is within the task where that grants the category and has the
/// resource, and 0.30 off where it grants the category alone. Otherwise it is borrowed for 0.15 from
/// some neighbouring task with both, 0.45 off where only the category is to be had from one, and
/// outside for 0.60 where no task grants the category.
pub proof fn law_lie_of_a_request(scope: &DomainScope, category: &ActionCategory, path: Option<&str>, r: DomainMatch)
    requires
        call_ensures(DomainScope::evaluate, (scope, category, path), r),
    ensures
        ({
            let here = scope.current_task_domain;
            let near = scope.adjacent_domains@;
            let granted_here = here.allowed_action_categories@.contains(*category);
            let granted_near = exists|i: int|
                0 <= i < near.len() && (#[trigger] near[i]).allowed_action_categories@.contains(*category);
            let both_near = exists|i: int|
                0 <= i < near.len() && (#[trigger] near[i]).allowed_action_categories@.contains(*category)
                    && has_resource(near[i], path);
            &&& r is InDomain <==> granted_here && has_resource(here, path)
            &&& r is Adjacent <==> !granted_here && both_near
            &&& r is DomainResourceMismatch <==> granted_here && !has_resource(here, path) || !granted_here && granted_near
                && !both_near
            &&& r is OutOfDomain <==> !granted_here && !granted_near
            &&& r matches DomainMatch::Adjacent { excess_weight } ==> excess_weight.bits == 0x3FC3_3333_3333_3333
            &&& r matches DomainMatch::DomainResourceMismatch { excess_weight } ==> excess_weight.bits == (if granted_here {
                0x3FD3_3333_3333_3333u64
            } else {
                0x3FDC_CCCC_CCCC_CCCDu64
            })
            &&& r matches DomainMatch::OutOfDomain { excess_weight } ==> excess_weight.bits == 0x3FE3_3333_3333_3333
        }),
{
    let here = scope.current_task_domain;
    let near = scope.adjacent_domains@;
    let shown = crate::text::str_text(path);
    assert forall|d: TaskDomain| #[trigger] has_resource(d, path) == d.admits(shown) by {
        if let Some(p) = path {
            lemma_reaches(&d, p@);
        }
    }
    assert(here.admits(shown) == has_resource(here, path));
    if scope.borrows_with(*category, shown) {
        let i = choose|i: int| 0 <= i < near.len() && (#[trigger] near[i]).grants(*category) && near[i].admits(shown);
        assert(near[i].allowed_action_categories@.contains(*category) && has_resource(near[i], path));
    }
    if exists|i: int|
        0 <= i < near.len() && (#[trigger] near[i]).allowed_action_categories@.contains(*category) && has_resource(
            near[i],
            path,
        ) {
        let i = choose|i: int|
            0 <= i < near.len() && (#[trigger] near[i]).allowed_action_categories@.contains(*category) && has_resource(
                near[i],
                path,
            );
        assert(near[i].grants(*category) && near[i].admits(shown));
    }
    if scope.borrows(*category) {
        let i = choose|i: int| 0 <= i < near.len() && (#[trigger] near[i]).grants(*category);
        assert(near[i].allowed_action_categories@.contains(*category));
    }
    if exists|i: int| 0 <= i < near.len() && (#[trigger] near[i]).allowed_action_categories@.contains(*category) {
        let i = choose|i: int|
            0 <= i < near.len() && (#[trigger] near[i]).allowed_action_categories@.contains(*category);
        assert(near[i].grants(*category));
    }
}

/// What a match costs: nothing within the task, and what it says otherwise.
pub proof fn law_cost_of_a_match(m: &DomainMatch, cost: Score)
    requires
        call_ensures(DomainMatch::excess_weight, (m,), cost),
    ensures
        *m == DomainMatch::InDomain ==> cost.bits == 0,
        *m matches DomainMatch::Adjacent { excess_weight } ==> cost == excess_weight,
        *m matches DomainMatch::DomainResourceMismatch { excess_weight } ==> cost == excess_weight,
        *m matches DomainMatch::OutOfDomain { excess_weight } ==> cost == excess_weight,
{
}

/// The trust that a task expects is brought into the range from zero to one.
pub proof fn law_expected_trust_is_in_range(
    name: &str,
    categories: KeySet<ActionCategory>,
    prefixes: Vec<String>,
    floor: Score,
    r: TaskDomain,
)
    requires
        call_ensures(TaskDomain::new, (name, categories, prefixes, floor), r),
    ensures
        floor.below(Score { bits: 0 }) ==> r.trust_floor.bits == 0,
        (Score { bits: 0x3FF0_0000_0000_0000 }).below(floor) ==> r.trust_floor.bits == 0x3FF0_0000_0000_0000,
        !floor.below(Score { bits: 0 }) && !(Score { bits: 0x3FF0_0000_0000_0000 }).below(floor) ==> r.trust_floor == floor,
        r.allowed_action_categories == categories,
        r.allowed_resource_prefixes == prefixes,
        r.domain_name@ == name@,
{
}

/// A scope has the task that it was made with, and the tasks next to it that it was given.
pub proof fn law_scope_is_what_it_is_made(
    domain: TaskDomain,
    adjacent: Vec<TaskDomain>,
    single: DomainScope,
    wide: DomainScope,
)
    requires
        call_ensures(DomainScope::single, (domain,), single),
        call_ensures(DomainScope::with_adjacent, (domain, adjacent), wide),
    ensures
        single.current_task_domain == domain && single.adjacent_domains@.len() == 0,
        wide.current_task_domain == domain && wide.adjacent_domains@ == adjacent@,
{
}

} // verus!
