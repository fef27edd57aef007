//! A name-keyed registry, for tools and other things that plug in.

use std::sync::Arc;

use vstd::prelude::*;

use crate::seqs::{group_views, views};
use crate::text::{chars_of, copy_of, str_eq};
use crate::traits::ToolSpec;

verus! {

broadcast use group_views;

/// Types that can live in a registry by name.
pub trait Named {
    /// The name, empty unless the type says otherwise.
    open spec fn named(&self) -> Seq<char> {
        Seq::empty()
    }

    fn name(&self) -> (r: &str)
        ensures
            r@ == self.named(),
    ;
}

impl Named for ToolSpec {
    open spec fn named(&self) -> Seq<char> {
        self.name@
    }

    fn name(&self) -> (r: &str) {
        self.name.as_str()
    }
}

/// Items by their names; an item takes the place of an earlier one of the
/// same name.
pub struct Registry<T> {
    items: Vec<Arc<T>>,
}

/// Whether no name occurs twice.
pub open spec fn distinct<T: Named>(s: Seq<Arc<T>>) -> bool {
    forall|i: int, j: int|
        0 <= i < j < s.len() ==> (#[trigger] s[i]).named() != (#[trigger] s[j]).named()
}

/// Whether the item at the position `i` has the name.
pub open spec fn has_name<T: Named>(s: Seq<Arc<T>>, name: Seq<char>, i: int) -> bool {
    0 <= i < s.len() && s[i].named() == name
}

/// The items by their names.
pub open spec fn by_name<T: Named>(s: Seq<Arc<T>>) -> Map<Seq<char>, Arc<T>> {
    Map::new(
        |name: Seq<char>| exists|i: int| has_name(s, name, i),
        |name: Seq<char>| s[choose|i: int| has_name(s, name, i)],
    )
}

impl<T: Named> View for Registry<T> {
    type V = Map<Seq<char>, Arc<T>>;

    closed spec fn view(&self) -> Map<Seq<char>, Arc<T>> {
        by_name(self.items@)
    }
}

/// `Arc::clone`: another pointer to the same value.
#[verifier::external_body]
fn share<T>(a: &Arc<T>) -> (r: Arc<T>)
    ensures
        r == *a,
{
    Arc::clone(a)
}

proof fn lemma_by_name<T: Named>(s: Seq<Arc<T>>, i: int)
    requires
        distinct(s),
        0 <= i < s.len(),
    ensures
        by_name(s).dom().contains(s[i].named()),
        by_name(s)[s[i].named()] == s[i],
{
    assert(has_name(s, s[i].named(), i));
    let k = choose|k: int| has_name(s, s[i].named(), k);
    if k < i {
        assert(s[k].named() != s[i].named());
    } else if i < k {
        assert(s[i].named() != s[k].named());
    }
}

proof fn lemma_by_name_push<T: Named>(s: Seq<Arc<T>>, x: Arc<T>)
    requires
        distinct(s),
        !by_name(s).dom().contains(x.named()),
    ensures
        distinct(s.push(x)),
        by_name(s.push(x)) == by_name(s).insert(x.named(), x),
{
    let t = s.push(x);
    assert forall|i: int| 0 <= i < s.len() implies (#[trigger] s[i]).named() != x.named() by {
        lemma_by_name(s, i);
    }
    assert(distinct(t));
    assert forall|n: Seq<char>| by_name(t).dom().contains(n) == by_name(s).insert(
        x.named(),
        x,
    ).dom().contains(n) by {
        if by_name(t).dom().contains(n) {
            let i = choose|i: int| has_name(t, n, i);
            if i < s.len() {
                assert(has_name(s, n, i));
            }
        }
        if by_name(s).dom().contains(n) {
            let i = choose|i: int| has_name(s, n, i);
            assert(has_name(t, n, i));
        }
        if n == x.named() {
            assert(has_name(t, n, s.len() as int));
        }
    }
    assert forall|n: Seq<char>| by_name(t).dom().contains(n) implies by_name(t)[n] == by_name(
        s,
    ).insert(x.named(), x)[n] by {
        let i = choose|i: int| has_name(t, n, i);
        lemma_by_name(t, i);
        if i < s.len() {
            assert(t[i] == s[i]);
            lemma_by_name(s, i);
        }
    }
    assert(by_name(t) =~= by_name(s).insert(x.named(), x));
}

proof fn lemma_by_name_update<T: Named>(s: Seq<Arc<T>>, k: int, x: Arc<T>)
    requires
        distinct(s),
        0 <= k < s.len(),
        s[k].named() == x.named(),
    ensures
        distinct(s.update(k, x)),
        by_name(s.update(k, x)) == by_name(s).insert(x.named(), x),
{
    let t = s.update(k, x);
    assert forall|i: int| 0 <= i < s.len() implies (#[trigger] t[i]).named() == s[i].named() by {}
    assert(distinct(t)) by {
        assert forall|i: int, j: int| 0 <= i < j < t.len() implies (#[trigger] t[i]).named() != (
        #[trigger] t[j]).named() by {
            assert(s[i].named() != s[j].named());
        }
    }
    assert forall|n: Seq<char>| by_name(t).dom().contains(n) == by_name(s).insert(
        x.named(),
        x,
    ).dom().contains(n) by {
        if by_name(t).dom().contains(n) {
            let i = choose|i: int| has_name(t, n, i);
            assert(has_name(s, n, i));
        }
        if by_name(s).dom().contains(n) {
            let i = choose|i: int| has_name(s, n, i);
            assert(has_name(t, n, i));
        }
        if n == x.named() {
            assert(has_name(t, n, k));
        }
    }
    assert forall|n: Seq<char>| by_name(t).dom().contains(n) implies by_name(t)[n] == by_name(
        s,
    ).insert(x.named(), x)[n] by {
        let i = choose|i: int| has_name(t, n, i);
        lemma_by_name(t, i);
        lemma_by_name(s, i);
        if i != k && s[i].named() == x.named() {
            if i < k {
                assert(s[i].named() != s[k].named());
            } else {
                assert(s[k].named() != s[i].named());
            }
        }
    }
    assert(by_name(t) =~= by_name(s).insert(x.named(), x));
}

/// Whether `a` goes before `b`: by the first character in which they
/// differ, else the shorter one first.
pub open spec fn before(a: Seq<char>, b: Seq<char>) -> bool
    decreases a.len(),
{
    if b.len() == 0 {
        false
    } else if a.len() == 0 {
        true
    } else if a[0] != b[0] {
        (a[0] as int) < (b[0] as int)
    } else {
        before(a.drop_first(), b.drop_first())
    }
}

proof fn lemma_before_total(a: Seq<char>, b: Seq<char>)
    ensures
        a == b || before(a, b) || before(b, a),
        !(before(a, b) && before(b, a)),
        !before(a, a),
    decreases a.len(),
{
    if a.len() == 0 || b.len() == 0 {
        if a.len() == 0 && b.len() == 0 {
            assert(a =~= b);
        }
        if a.len() > 0 {
            lemma_before_total(a.drop_first(), a.drop_first());
        }
    } else {
        lemma_before_total(a.drop_first(), b.drop_first());
        if a[0] == b[0] && a.drop_first() == b.drop_first() {
            assert(a =~= b) by {
                assert forall|i: int| 0 <= i < a.len() implies a[i] == b[i] by {
                    if i > 0 {
                        assert(a[i] == a.drop_first()[i - 1]);
                        assert(b[i] == b.drop_first()[i - 1]);
                    }
                }
            }
        }
    }
}

proof fn lemma_before_transitive(a: Seq<char>, b: Seq<char>, c: Seq<char>)
    requires
        before(a, b),
        before(b, c),
    ensures
        before(a, c),
    decreases a.len(),
{
    if a.len() > 0 && b.len() > 0 && c.len() > 0 && a[0] == b[0] && b[0] == c[0] {
        lemma_before_transitive(a.drop_first(), b.drop_first(), c.drop_first());
    }
}

/// Whether the names go one before the other.
pub open spec fn sorted(names: Seq<Seq<char>>) -> bool {
    forall|i: int, j: int|
        0 <= i < j < names.len() ==> before(#[trigger] names[i], #[trigger] names[j])
}

fn code_point(c: char) -> (r: u32)
    ensures
        r == c as int,
{
    c as u32
}

fn goes_before(a: &str, b: &str) -> (r: bool)
    ensures
        r == before(a@, b@),
{
    let x = chars_of(a);
    let y = chars_of(b);
    let mut k: usize = 0;
    assert(x@.skip(0) =~= x@);
    assert(y@.skip(0) =~= y@);
    while k < x.len() && k < y.len()
        invariant
            x@ == a@,
            y@ == b@,
            k <= x@.len(),
            k <= y@.len(),
            before(x@, y@) == before(x@.skip(k as int), y@.skip(k as int)),
        decreases x@.len() - k,
    {
        if x[k] != y[k] {
            return code_point(x[k]) < code_point(y[k]);
        }
        assert(x@.skip(k as int).drop_first() =~= x@.skip(k + 1));
        assert(y@.skip(k as int).drop_first() =~= y@.skip(k + 1));
        k = k + 1;
    }
    k >= x.len() && k < y.len()
}

fn insert_sorted(names: &mut Vec<String>, name: String)
    requires
        sorted(views(old(names)@)),
        !views(old(names)@).contains(name@),
    ensures
        sorted(views(final(names)@)),
        forall|n: Seq<char>| #[trigger]
            views(final(names)@).contains(n) <==> views(old(names)@).contains(n) || n == name@,
{
    let ghost all = views(names@);
    let mut i: usize = 0;
    while i < names.len() && goes_before(&names[i], &name)
        invariant
            i <= names@.len(),
            views(names@) == all,
            all.len() == names@.len(),
            forall|j: int| 0 <= j < i ==> before(#[trigger] all[j], name@),
        decreases names@.len() - i,
    {
        i = i + 1;
    }
    let ghost items = names@;
    names.insert(i, name);
    let ghost after = views(names@);
    proof {
        assert(after =~= all.insert(i as int, name@));
        assert forall|a: int, b: int| 0 <= a < b < after.len() implies before(
            #[trigger] after[a],
            #[trigger] after[b],
        ) by {
            let p = if a < i {
                a
            } else {
                a - 1
            };
            let q = if b < i {
                b
            } else {
                b - 1
            };
            if a == i {
                lemma_before_total(all[i as int], name@);
                assert(all.contains(all[i as int]));
                if q > i {
                    assert(before(all[i as int], all[q]));
                    lemma_before_transitive(name@, all[i as int], all[q]);
                }
            } else if b == i {
                assert(before(all[a], name@));
            } else {
                assert(before(all[p], all[q]));
            }
        }
        assert forall|n: Seq<char>| #[trigger] after.contains(n) <==> all.contains(n) || n
            == name@ by {
            if after.contains(n) {
                let a = choose|a: int| 0 <= a < after.len() && after[a] == n;
                if a < i {
                    assert(all[a] == n);
                } else if a > i {
                    assert(all[a - 1] == n);
                }
            }
            if all.contains(n) {
                let a = choose|a: int| 0 <= a < all.len() && all[a] == n;
                if a < i {
                    assert(after[a] == n);
                } else {
                    assert(after[a + 1] == n);
                }
            }
            if n == name@ {
                assert(after[i as int] == n);
            }
        }
    }
}

impl<T: Named> Registry<T> {
    /// Whether every item has a name of its own.
    pub closed spec fn well_formed(&self) -> bool {
        distinct(self.items@)
    }

    pub fn new() -> (r: Registry<T>)
        ensures
            r.well_formed(),
            r@ == Map::<Seq<char>, Arc<T>>::empty(),
    {
        let r = Registry { items: Vec::new() };
        assert(by_name(r.items@) =~= Map::<Seq<char>, Arc<T>>::empty());
        r
    }

    fn position(&self, name: &str) -> (r: Option<usize>)
        ensures
            match r {
                Some(i) => i < self.items@.len() && self.items@[i as int].named() == name@,
                None => forall|i: int|
                    0 <= i < self.items@.len() ==> (#[trigger] self.items@[i]).named() != name@,
            },
    {
        let n: usize = self.items.len();
        for i in 0..n
            invariant
                n == self.items@.len(),
                forall|j: int| 0 <= j < i ==> (#[trigger] self.items@[j]).named() != name@,
        {
            if str_eq(self.items[i].name(), name) {
                return Some(i);
            }
        }
        None
    }

    /// Adds an item; an earlier item of the same name gives way.
    pub fn register(&mut self, item: Arc<T>)
        requires
            old(self).well_formed(),
        ensures
            final(self).well_formed(),
            final(self)@ == old(self)@.insert(item.named(), item),
    {
        match self.position(item.name()) {
            Some(i) => {
                proof {
                    lemma_by_name_update(self.items@, i as int, item);
                }
                self.items.set(i, item);
            },
            None => {
                proof {
                    if self@.dom().contains(item.named()) {
                        let i = choose|i: int| has_name(self.items@, item.named(), i);
                        assert(self.items@[i].named() != item.named());
                    }
                    lemma_by_name_push(self.items@, item);
                }
                self.items.push(item);
            },
        }
    }

    /// The item of the name.
    pub fn get(&self, name: &str) -> (r: Option<Arc<T>>)
        requires
            self.well_formed(),
        ensures
            r == if self@.dom().contains(name@) {
                Some(self@[name@])
            } else {
                None
            },
    {
        match self.position(name) {
            Some(i) => {
                proof {
                    lemma_by_name(self.items@, i as int);
                }
                Some(share(&self.items[i]))
            },
            None => {
                proof {
                    if self@.dom().contains(name@) {
                        let i = choose|i: int| has_name(self.items@, name@, i);
                        assert(self.items@[i].named() != name@);
                    }
                }
                None
            },
        }
    }

    /// All names, in order.
    pub fn names(&self) -> (r: Vec<String>)
        requires
            self.well_formed(),
        ensures
            sorted(views(r@)),
            forall|n: Seq<char>| #[trigger]
                views(r@).contains(n) <==> self@.dom().contains(n),
    {
        let n: usize = self.items.len();
        let mut r: Vec<String> = Vec::new();
        for i in 0..n
            invariant
                n == self.items@.len(),
                distinct(self.items@),
                sorted(views(r@)),
                forall|m: Seq<char>| #[trigger]
                    views(r@).contains(m) <==> exists|j: int| j < i && has_name(self.items@, m, j),
        {
            let name = copy_of(self.items[i].name());
            let ghost old_names = views(r@);
            proof {
                if old_names.contains(name@) {
                    let j = choose|j: int| j < i && has_name(self.items@, name@, j);
                    assert(self.items@[j].named() != self.items@[i as int].named());
                }
            }
            insert_sorted(&mut r, name);
            assert forall|m: Seq<char>| #[trigger] views(r@).contains(m) <==> exists|j: int|
                j < i + 1 && has_name(self.items@, m, j) by {
                if m == name@ {
                    assert(has_name(self.items@, m, i as int));
                }
                if exists|j: int| j < i + 1 && has_name(self.items@, m, j) {
                    let j = choose|j: int| j < i + 1 && has_name(self.items@, m, j);
                    if j < i {
                        assert(j < i && has_name(self.items@, m, j));
                    }
                }
            }
        }
        assert forall|m: Seq<char>| #[trigger] views(r@).contains(m) <==> self@.dom().contains(
            m,
        ) by {
            if self@.dom().contains(m) {
                let j = choose|j: int| has_name(self.items@, m, j);
                assert(j < n && has_name(self.items@, m, j));
            }
        }
        r
    }

    /// All items, in no particular order.
    pub fn all(&self) -> (r: Vec<Arc<T>>)
        requires
            self.well_formed(),
        ensures
            distinct(r@),
            by_name(r@) == self@,
    {
        let n: usize = self.items.len();
        let mut r: Vec<Arc<T>> = Vec::new();
        for i in 0..n
            invariant
                n == self.items@.len(),
                r@ == self.items@.take(i as int),
        {
            r.push(share(&self.items[i]));
            assert(r@ =~= self.items@.take(i + 1));
        }
        assert(r@ =~= self.items@);
        r
    }
}

impl<T: Named> Default for Registry<T> {
    fn default() -> (r: Self)
        ensures
            r.well_formed(),
            r@ == Map::<Seq<char>, Arc<T>>::empty(),
    {
        Registry::new()
    }
}

/// Registering an item makes it the one that is found under its name, and
/// changes nothing for other names.
pub proof fn law_registered_item_is_found<T: Named>(
    m: Map<Seq<char>, Arc<T>>,
    item: Arc<T>,
    other: Seq<char>,
)
    ensures
        m.insert(item.named(), item).dom().contains(item.named()),
        m.insert(item.named(), item)[item.named()] == item,
        other != item.named() ==> (m.insert(item.named(), item).dom().contains(other)
            <==> m.dom().contains(other)),
{
}

/// Names are in the order of their characters: by the first one in which
/// they differ, and a name before the longer ones that begin with it. No
/// two different names are on a par.
pub proof fn law_names_are_ordered(a: Seq<char>, b: Seq<char>, c: Seq<char>, x: char, y: char)
    ensures
        a == b || before(a, b) || before(b, a),
        !(before(a, b) && before(b, a)),
        before(a, b) && before(b, c) ==> before(a, c),
        before(a, a.push(x)),
        (x as int) < (y as int) ==> before(a.push(x) + b, a.push(y) + c),
{
    lemma_before_total(a, b);
    if before(a, b) && before(b, c) {
        lemma_before_transitive(a, b, c);
    }
    lemma_before_prefix(a, x);
    if (x as int) < (y as int) {
        lemma_before_differs(a, x, y, b, c);
    }
}

proof fn lemma_before_prefix(a: Seq<char>, x: char)
    ensures
        before(a, a.push(x)),
    decreases a.len(),
{
    if a.len() > 0 {
        lemma_before_prefix(a.drop_first(), x);
        assert(a.push(x).drop_first() =~= a.drop_first().push(x));
    }
}

proof fn lemma_before_differs(a: Seq<char>, x: char, y: char, b: Seq<char>, c: Seq<char>)
    requires
        (x as int) < (y as int),
    ensures
        before(a.push(x) + b, a.push(y) + c),
    decreases a.len(),
{
    let s = a.push(x) + b;
    let t = a.push(y) + c;
    if a.len() > 0 {
        lemma_before_differs(a.drop_first(), x, y, b, c);
        assert(s.drop_first() =~= a.drop_first().push(x) + b);
        assert(t.drop_first() =~= a.drop_first().push(y) + c);
        assert(s[0] == t[0]);
    }
}

} // verus!
