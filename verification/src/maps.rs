use vstd::prelude::*;
use crate::expr::{Expr, ExprS, copy_expr};
use crate::token::{Token, TokenS, opt_view, tape_view, copy_opt_string};

verus! {

/// String equality through the standard library's comparison.
pub fn string_eq(a: &String, b: &String) -> (r: bool)
    ensures
        r == (a@ == b@),
{
    *a == *b
}

/// Equality of optional index strings, by text.
pub fn opt_key_eq(a: &Option<String>, b: &Option<String>) -> (r: bool)
    ensures
        r == (opt_view(*a) == opt_view(*b)),
{
    match (a, b) {
        (Option::None, Option::None) => true,
        (Option::Some(x), Option::Some(y)) => string_eq(x, y),
        _ => false,
    }
}

// ---------------------------------------------------------------------------
// Bucket: one variable's storage, an optional index string to a value.
// ---------------------------------------------------------------------------

/// Per-name storage: the entry under `None` is the scalar value, entries
/// under `Some(key)` are the associative-array slots.
pub struct Bucket {
    entries: Vec<(Option<String>, Expr)>,
}

/// The mapping a bucket entry list denotes; later entries would win, but a
/// well-formed bucket never repeats a key.
pub open spec fn bucket_map_of(s: Seq<(Option<String>, Expr)>) -> Map<Option<Seq<char>>, ExprS>
    decreases s.len(),
{
    if s.len() == 0 {
        Map::empty()
    } else {
        bucket_map_of(s.drop_last()).insert(opt_view(s.last().0), s.last().1@)
    }
}

pub open spec fn bucket_keys_unique(s: Seq<(Option<String>, Expr)>) -> bool {
    forall|i: int, j: int|
        0 <= i < j < s.len() ==> opt_view(s[i].0) != opt_view(s[j].0)
}

pub proof fn lemma_bucket_contains(s: Seq<(Option<String>, Expr)>)
    ensures
        forall|k: Option<Seq<char>>|
            bucket_map_of(s).contains_key(k) <==> (exists|i: int|
                0 <= i < s.len() && opt_view(s[i].0) == k),
    decreases s.len(),
{
    if s.len() > 0 {
        lemma_bucket_contains(s.drop_last());
        assert forall|k: Option<Seq<char>>| bucket_map_of(s).contains_key(k) implies (exists|i: int|
            0 <= i < s.len() && opt_view(s[i].0) == k) by {
            if k == opt_view(s.last().0) {
                assert(opt_view(s[s.len() - 1].0) == k);
            } else {
                assert(bucket_map_of(s.drop_last()).contains_key(k));
                let i = choose|i: int|
                    0 <= i < s.drop_last().len() && opt_view(s.drop_last()[i].0) == k;
                assert(opt_view(s[i].0) == k);
            }
        }
        assert forall|k: Option<Seq<char>>| (exists|i: int|
            0 <= i < s.len() && opt_view(s[i].0) == k) implies bucket_map_of(s).contains_key(
            k,
        ) by {
            assert(bucket_map_of(s) == bucket_map_of(s.drop_last()).insert(
                opt_view(s.last().0),
                s.last().1@,
            ));
            let i = choose|i: int| 0 <= i < s.len() && opt_view(s[i].0) == k;
            if i < s.len() - 1 {
                assert(opt_view(s.drop_last()[i].0) == k);
                assert(bucket_map_of(s.drop_last()).contains_key(k));
            } else {
                assert(k == opt_view(s.last().0));
            }
        }
    }
}

pub proof fn lemma_bucket_index(s: Seq<(Option<String>, Expr)>, i: int)
    requires
        bucket_keys_unique(s),
        0 <= i < s.len(),
    ensures
        bucket_map_of(s).contains_key(opt_view(s[i].0)),
        bucket_map_of(s)[opt_view(s[i].0)] == s[i].1@,
    decreases s.len(),
{
    if i == s.len() - 1 {
    } else {
        assert(bucket_keys_unique(s.drop_last()));
        lemma_bucket_index(s.drop_last(), i);
        assert(s.drop_last()[i] == s[i]);
        assert(opt_view(s[i].0) != opt_view(s[s.len() - 1].0));
    }
}

pub proof fn lemma_bucket_remove(s: Seq<(Option<String>, Expr)>, i: int)
    requires
        bucket_keys_unique(s),
        0 <= i < s.len(),
    ensures
        bucket_map_of(s.remove(i)) == bucket_map_of(s).remove(opt_view(s[i].0)),
        bucket_keys_unique(s.remove(i)),
    decreases s.len(),
{
    let k = opt_view(s[i].0);
    assert(bucket_keys_unique(s.remove(i)));
    if i == s.len() - 1 {
        assert(s.remove(i) =~= s.drop_last());
        lemma_bucket_contains(s.drop_last());
        assert(!bucket_map_of(s.drop_last()).contains_key(k));
        assert(bucket_map_of(s.drop_last()) =~= bucket_map_of(s).remove(k));
    } else {
        assert(bucket_keys_unique(s.drop_last()));
        lemma_bucket_remove(s.drop_last(), i);
        assert(s.remove(i).drop_last() =~= s.drop_last().remove(i));
        assert(s.remove(i).last() == s.last());
        assert(bucket_map_of(s.remove(i)) == bucket_map_of(s.drop_last().remove(i)).insert(
            opt_view(s.last().0),
            s.last().1@,
        ));
        assert(k != opt_view(s.last().0));
        assert(bucket_map_of(s.drop_last()).remove(k).insert(opt_view(s.last().0), s.last().1@)
            =~= bucket_map_of(s).remove(k));
    }
}

impl View for Bucket {
    type V = Map<Option<Seq<char>>, ExprS>;

    closed spec fn view(&self) -> Map<Option<Seq<char>>, ExprS> {
        bucket_map_of(self.entries@)
    }
}

impl Bucket {
    pub closed spec fn wf(&self) -> bool {
        bucket_keys_unique(self.entries@)
    }

    /// An empty bucket.
    pub fn new() -> (r: Bucket)
        ensures
            r.wf(),
            r@ == Map::<Option<Seq<char>>, ExprS>::empty(),
    {
        Bucket { entries: Vec::new() }
    }

    /// The value stored under an index, if any.
    pub fn get(&self, k: &Option<String>) -> (r: Option<&Expr>)
        requires
            self.wf(),
        ensures
            match r {
                Option::Some(v) => self@.contains_key(opt_view(*k)) && v@ == self@[opt_view(*k)],
                Option::None => !self@.contains_key(opt_view(*k)),
            },
    {
        let mut i: usize = 0;
        while i < self.entries.len()
            invariant
                i <= self.entries@.len(),
                self.wf(),
                forall|j: int| 0 <= j < i ==> opt_view(self.entries@[j].0) != opt_view(*k),
            decreases self.entries@.len() - i,
        {
            let e = &self.entries[i];
            if opt_key_eq(&e.0, k) {
                proof {
                    lemma_bucket_index(self.entries@, i as int);
                }
                return Option::Some(&e.1);
            }
            i = i + 1;
        }
        proof {
            lemma_bucket_contains(self.entries@);
        }
        Option::None
    }

    /// Drop the entry under an index, if present.
    pub fn remove_key(&mut self, k: &Option<String>)
        requires
            old(self).wf(),
        ensures
            final(self).wf(),
            final(self)@ == old(self)@.remove(opt_view(*k)),
    {
        let mut i: usize = 0;
        while i < self.entries.len()
            invariant
                i <= self.entries@.len(),
                self.wf(),
                self.entries@ == old(self).entries@,
                forall|j: int| 0 <= j < i ==> opt_view(self.entries@[j].0) != opt_view(*k),
            decreases self.entries@.len() - i,
        {
            let hit = opt_key_eq(&self.entries[i].0, k);
            if hit {
                proof {
                    lemma_bucket_remove(self.entries@, i as int);
                }
                self.entries.remove(i);
                return ;
            }
            i = i + 1;
        }
        proof {
            lemma_bucket_contains(self.entries@);
            assert(final(self)@ =~= old(self)@.remove(opt_view(*k)));
        }
    }

    /// Store a value under an index, replacing any previous one.
    pub fn set(&mut self, k: Option<String>, v: Expr)
        requires
            old(self).wf(),
        ensures
            final(self).wf(),
            final(self)@ == old(self)@.insert(opt_view(k), v@),
    {
        self.remove_key(&k);
        proof {
            lemma_bucket_contains(self.entries@);
            assert(!self@.contains_key(opt_view(k)));
            assert forall|j: int|
                0 <= j < self.entries@.len() implies opt_view(self.entries@[j].0) != opt_view(
                k,
            ) by {
                if opt_view(self.entries@[j].0) == opt_view(k) {
                    assert(bucket_map_of(self.entries@).contains_key(opt_view(k)));
                }
            }
        }
        let ghost pre = self.entries@;
        self.entries.push((k, v));
        proof {
            assert(self.entries@.drop_last() =~= pre);
            assert(self@ =~= old(self)@.insert(opt_view(k), v@));
        }
    }

    /// Deep copy of a bucket.
    pub fn duplicate(&self) -> (r: Bucket)
        requires
            self.wf(),
        ensures
            r.wf(),
            r@ == self@,
    {
        let mut out: Vec<(Option<String>, Expr)> = Vec::new();
        let mut i: usize = 0;
        while i < self.entries.len()
            invariant
                i <= self.entries@.len(),
                out@.len() == i,
                forall|j: int|
                    0 <= j < i ==> opt_view(out@[j].0) == opt_view(self.entries@[j].0)
                        && out@[j].1@ == self.entries@[j].1@,
            decreases self.entries@.len() - i,
        {
            let e = &self.entries[i];
            let ck = copy_opt_string(&e.0);
            let cv = copy_expr(&e.1);
            out.push((ck, cv));
            i = i + 1;
        }
        proof {
            lemma_bucket_same_views(out@, self.entries@);
        }
        Bucket { entries: out }
    }
}

/// Two entry lists whose keys and value views agree pointwise denote the
/// same mapping.
pub proof fn lemma_bucket_same_views(
    a: Seq<(Option<String>, Expr)>,
    b: Seq<(Option<String>, Expr)>,
)
    requires
        a.len() == b.len(),
        forall|j: int| 0 <= j < a.len() ==> opt_view(a[j].0) == opt_view(b[j].0) && a[j].1@
            == b[j].1@,
    ensures
        bucket_map_of(a) == bucket_map_of(b),
        bucket_keys_unique(a) == bucket_keys_unique(b),
    decreases a.len(),
{
    if a.len() > 0 {
        assert forall|j: int| 0 <= j < a.drop_last().len() implies opt_view(
            a.drop_last()[j].0,
        ) == opt_view(b.drop_last()[j].0) && a.drop_last()[j].1@ == b.drop_last()[j].1@ by {
            assert(a.drop_last()[j] == a[j]);
            assert(b.drop_last()[j] == b[j]);
        }
        lemma_bucket_same_views(a.drop_last(), b.drop_last());
        assert(opt_view(a.last().0) == opt_view(b.last().0));
        assert(a.last().1@ == b.last().1@);
    }
    assert(bucket_keys_unique(a) == bucket_keys_unique(b));
}


// ---------------------------------------------------------------------------
// Scope: the variables of one evaluator instance, name to bucket.
// ---------------------------------------------------------------------------

/// The name-to-bucket storage of one running frame; cleared when the frame
/// finishes, modeling call-frame teardown.
pub struct Scope {
    entries: Vec<(String, Bucket)>,
}

pub open spec fn scope_map_of(s: Seq<(String, Bucket)>) -> Map<
    Seq<char>,
    Map<Option<Seq<char>>, ExprS>,
>
    decreases s.len(),
{
    if s.len() == 0 {
        Map::empty()
    } else {
        scope_map_of(s.drop_last()).insert(s.last().0@, s.last().1@)
    }
}

pub open spec fn scope_keys_unique(s: Seq<(String, Bucket)>) -> bool {
    forall|i: int, j: int| 0 <= i < j < s.len() ==> s[i].0@ != s[j].0@
}

pub proof fn lemma_scope_contains(s: Seq<(String, Bucket)>)
    ensures
        forall|k: Seq<char>|
            scope_map_of(s).contains_key(k) <==> (exists|i: int|
                0 <= i < s.len() && s[i].0@ == k),
    decreases s.len(),
{
    if s.len() > 0 {
        lemma_scope_contains(s.drop_last());
        assert forall|k: Seq<char>| scope_map_of(s).contains_key(k) implies (exists|i: int|
            0 <= i < s.len() && s[i].0@ == k) by {
            if k == s.last().0@ {
                assert(s[s.len() - 1].0@ == k);
            } else {
                assert(scope_map_of(s.drop_last()).contains_key(k));
                let i = choose|i: int| 0 <= i < s.drop_last().len() && s.drop_last()[i].0@ == k;
                assert(s[i].0@ == k);
            }
        }
        assert forall|k: Seq<char>| (exists|i: int| 0 <= i < s.len() && s[i].0@ == k)
            implies scope_map_of(s).contains_key(k) by {
            assert(scope_map_of(s) == scope_map_of(s.drop_last()).insert(s.last().0@, s.last().1@));
            let i = choose|i: int| 0 <= i < s.len() && s[i].0@ == k;
            if i < s.len() - 1 {
                assert(s.drop_last()[i].0@ == k);
                assert(scope_map_of(s.drop_last()).contains_key(k));
            } else {
                assert(k == s.last().0@);
            }
        }
    }
}

pub proof fn lemma_scope_index(s: Seq<(String, Bucket)>, i: int)
    requires
        scope_keys_unique(s),
        0 <= i < s.len(),
    ensures
        scope_map_of(s).contains_key(s[i].0@),
        scope_map_of(s)[s[i].0@] == s[i].1@,
    decreases s.len(),
{
    if i == s.len() - 1 {
    } else {
        assert(scope_keys_unique(s.drop_last()));
        lemma_scope_index(s.drop_last(), i);
        assert(s.drop_last()[i] == s[i]);
        assert(s[i].0@ != s[s.len() - 1].0@);
    }
}

pub proof fn lemma_scope_remove(s: Seq<(String, Bucket)>, i: int)
    requires
        scope_keys_unique(s),
        0 <= i < s.len(),
    ensures
        scope_map_of(s.remove(i)) == scope_map_of(s).remove(s[i].0@),
        scope_keys_unique(s.remove(i)),
    decreases s.len(),
{
    let k = s[i].0@;
    assert(scope_keys_unique(s.remove(i)));
    if i == s.len() - 1 {
        assert(s.remove(i) =~= s.drop_last());
        lemma_scope_contains(s.drop_last());
        assert(!scope_map_of(s.drop_last()).contains_key(k));
        assert(scope_map_of(s.drop_last()) =~= scope_map_of(s).remove(k));
    } else {
        assert(scope_keys_unique(s.drop_last()));
        lemma_scope_remove(s.drop_last(), i);
        assert(s.remove(i).drop_last() =~= s.drop_last().remove(i));
        assert(s.remove(i).last() == s.last());
        assert(scope_map_of(s.remove(i)) == scope_map_of(s.drop_last().remove(i)).insert(
            s.last().0@,
            s.last().1@,
        ));
        assert(k != s.last().0@);
        assert(scope_map_of(s.drop_last()).remove(k).insert(s.last().0@, s.last().1@)
            =~= scope_map_of(s).remove(k));
    }
}

impl View for Scope {
    type V = Map<Seq<char>, Map<Option<Seq<char>>, ExprS>>;

    closed spec fn view(&self) -> Map<Seq<char>, Map<Option<Seq<char>>, ExprS>> {
        scope_map_of(self.entries@)
    }
}

impl Scope {
    pub closed spec fn wf(&self) -> bool {
        scope_keys_unique(self.entries@) && (forall|i: int|
            0 <= i < self.entries@.len() ==> (#[trigger] self.entries@[i].1).wf())
    }

    /// An empty scope.
    pub fn new() -> (r: Scope)
        ensures
            r.wf(),
            r@ == Map::<Seq<char>, Map<Option<Seq<char>>, ExprS>>::empty(),
    {
        Scope { entries: Vec::new() }
    }

    /// The bucket stored under a name, if any.
    pub fn get_bucket(&self, name: &String) -> (r: Option<&Bucket>)
        requires
            self.wf(),
        ensures
            match r {
                Option::Some(b) => self@.contains_key(name@) && b@ == self@[name@] && b.wf(),
                Option::None => !self@.contains_key(name@),
            },
    {
        let mut i: usize = 0;
        while i < self.entries.len()
            invariant
                i <= self.entries@.len(),
                self.wf(),
                forall|j: int| 0 <= j < i ==> self.entries@[j].0@ != name@,
            decreases self.entries@.len() - i,
        {
            let e = &self.entries[i];
            if string_eq(&e.0, name) {
                proof {
                    lemma_scope_index(self.entries@, i as int);
                }
                return Option::Some(&e.1);
            }
            i = i + 1;
        }
        proof {
            lemma_scope_contains(self.entries@);
        }
        Option::None
    }

    /// Remove and hand back the bucket stored under a name, if any.
    pub fn take_bucket(&mut self, name: &String) -> (r: Option<Bucket>)
        requires
            old(self).wf(),
        ensures
            final(self).wf(),
            match r {
                Option::Some(b) => old(self)@.contains_key(name@) && b@ == old(self)@[name@]
                    && b.wf() && final(self)@ == old(self)@.remove(name@),
                Option::None => !old(self)@.contains_key(name@) && final(self)@ == old(self)@,
            },
    {
        let mut i: usize = 0;
        while i < self.entries.len()
            invariant
                i <= self.entries@.len(),
                self.wf(),
                self.entries@ == old(self).entries@,
                forall|j: int| 0 <= j < i ==> self.entries@[j].0@ != name@,
            decreases self.entries@.len() - i,
        {
            let hit = string_eq(&self.entries[i].0, name);
            if hit {
                proof {
                    lemma_scope_index(self.entries@, i as int);
                    lemma_scope_remove(self.entries@, i as int);
                }
                let pair = self.entries.remove(i);
                return Option::Some(pair.1);
            }
            i = i + 1;
        }
        proof {
            lemma_scope_contains(self.entries@);
            assert(final(self)@ =~= old(self)@);
        }
        Option::None
    }

    /// The bucket a store under this name starts from: the stored one, or
    /// an empty one.
    pub open spec fn bucket_or_empty(m: Map<Seq<char>, Map<Option<Seq<char>>, ExprS>>, name: Seq<char>) -> Map<
        Option<Seq<char>>,
        ExprS,
    > {
        if m.contains_key(name) {
            m[name]
        } else {
            Map::empty()
        }
    }

    /// Store a value under `(name, index)`, creating the bucket if the name
    /// is new.
    pub fn set_value(&mut self, name: String, idx: Option<String>, v: Expr)
        requires
            old(self).wf(),
        ensures
            final(self).wf(),
            final(self)@ == old(self)@.insert(
                name@,
                Scope::bucket_or_empty(old(self)@, name@).insert(opt_view(idx), v@),
            ),
    {
        let mut bucket = match self.take_bucket(&name) {
            Option::Some(b) => b,
            Option::None => Bucket::new(),
        };
        bucket.set(idx, v);
        proof {
            lemma_scope_contains(self.entries@);
            assert(!self@.contains_key(name@));
            assert forall|j: int| 0 <= j < self.entries@.len() implies self.entries@[j].0@
                != name@ by {
                if self.entries@[j].0@ == name@ {
                    assert(scope_map_of(self.entries@).contains_key(name@));
                }
            }
        }
        let ghost pre = self.entries@;
        self.entries.push((name, bucket));
        proof {
            assert(self.entries@.drop_last() =~= pre);
            assert(self@ =~= old(self)@.insert(
                self.entries@.last().0@,
                self.entries@.last().1@,
            ));
        }
    }

    /// Store a whole bucket under a name, replacing any previous one.
    pub fn put_bucket(&mut self, name: String, b: Bucket)
        requires
            old(self).wf(),
            b.wf(),
        ensures
            final(self).wf(),
            final(self)@ == old(self)@.insert(name@, b@),
    {
        let taken = self.take_bucket(&name);
        proof {
            lemma_scope_contains(self.entries@);
            assert(!self@.contains_key(name@));
            assert forall|j: int| 0 <= j < self.entries@.len() implies self.entries@[j].0@
                != name@ by {
                if self.entries@[j].0@ == name@ {
                    assert(scope_map_of(self.entries@).contains_key(name@));
                }
            }
        }
        let ghost pre = self.entries@;
        self.entries.push((name, b));
        proof {
            assert(self.entries@.drop_last() =~= pre);
            assert(self@ =~= old(self)@.insert(self.entries@.last().0@, self.entries@.last().1@));
        }
    }

    /// Delete the whole bucket under a name; no effect when it is absent.
    pub fn remove_name(&mut self, name: &String)
        requires
            old(self).wf(),
        ensures
            final(self).wf(),
            final(self)@ == old(self)@.remove(name@),
    {
        let taken = self.take_bucket(name);
        proof {
            if taken is None {
                assert(final(self)@ =~= old(self)@.remove(name@));
            }
        }
    }

    /// Drop every variable at once: call-frame teardown.
    pub fn clear(&mut self)
        ensures
            final(self).wf(),
            final(self)@ == Map::<Seq<char>, Map<Option<Seq<char>>, ExprS>>::empty(),
    {
        self.entries = Vec::new();
    }
}

// ---------------------------------------------------------------------------
// TokenMap: macro table and function registry, name to captured body.
// ---------------------------------------------------------------------------

/// A shared register mapping a name to a captured raw token sequence; used
/// for both the macro table and the function registry.  Re-registering a
/// name overwrites the previous body.
pub struct TokenMap {
    entries: Vec<(String, Vec<Token>)>,
}

pub open spec fn tmap_of(s: Seq<(String, Vec<Token>)>) -> Map<Seq<char>, Seq<TokenS>>
    decreases s.len(),
{
    if s.len() == 0 {
        Map::empty()
    } else {
        tmap_of(s.drop_last()).insert(s.last().0@, tape_view(s.last().1@))
    }
}

pub open spec fn tmap_keys_unique(s: Seq<(String, Vec<Token>)>) -> bool {
    forall|i: int, j: int| 0 <= i < j < s.len() ==> s[i].0@ != s[j].0@
}

pub proof fn lemma_tmap_contains(s: Seq<(String, Vec<Token>)>)
    ensures
        forall|k: Seq<char>|
            tmap_of(s).contains_key(k) <==> (exists|i: int| 0 <= i < s.len() && s[i].0@ == k),
    decreases s.len(),
{
    if s.len() > 0 {
        lemma_tmap_contains(s.drop_last());
        assert forall|k: Seq<char>| tmap_of(s).contains_key(k) implies (exists|i: int|
            0 <= i < s.len() && s[i].0@ == k) by {
            if k == s.last().0@ {
                assert(s[s.len() - 1].0@ == k);
            } else {
                assert(tmap_of(s.drop_last()).contains_key(k));
                let i = choose|i: int| 0 <= i < s.drop_last().len() && s.drop_last()[i].0@ == k;
                assert(s[i].0@ == k);
            }
        }
        assert forall|k: Seq<char>| (exists|i: int| 0 <= i < s.len() && s[i].0@ == k)
            implies tmap_of(s).contains_key(k) by {
            assert(tmap_of(s) == tmap_of(s.drop_last()).insert(
                s.last().0@,
                tape_view(s.last().1@),
            ));
            let i = choose|i: int| 0 <= i < s.len() && s[i].0@ == k;
            if i < s.len() - 1 {
                assert(s.drop_last()[i].0@ == k);
                assert(tmap_of(s.drop_last()).contains_key(k));
            } else {
                assert(k == s.last().0@);
            }
        }
    }
}

pub proof fn lemma_tmap_index(s: Seq<(String, Vec<Token>)>, i: int)
    requires
        tmap_keys_unique(s),
        0 <= i < s.len(),
    ensures
        tmap_of(s).contains_key(s[i].0@),
        tmap_of(s)[s[i].0@] == tape_view(s[i].1@),
    decreases s.len(),
{
    if i == s.len() - 1 {
    } else {
        assert(tmap_keys_unique(s.drop_last()));
        lemma_tmap_index(s.drop_last(), i);
        assert(s.drop_last()[i] == s[i]);
        assert(s[i].0@ != s[s.len() - 1].0@);
    }
}

pub proof fn lemma_tmap_remove(s: Seq<(String, Vec<Token>)>, i: int)
    requires
        tmap_keys_unique(s),
        0 <= i < s.len(),
    ensures
        tmap_of(s.remove(i)) == tmap_of(s).remove(s[i].0@),
        tmap_keys_unique(s.remove(i)),
    decreases s.len(),
{
    let k = s[i].0@;
    assert(tmap_keys_unique(s.remove(i)));
    if i == s.len() - 1 {
        assert(s.remove(i) =~= s.drop_last());
        lemma_tmap_contains(s.drop_last());
        assert(!tmap_of(s.drop_last()).contains_key(k));
        assert(tmap_of(s.drop_last()) =~= tmap_of(s).remove(k));
    } else {
        assert(tmap_keys_unique(s.drop_last()));
        lemma_tmap_remove(s.drop_last(), i);
        assert(s.remove(i).drop_last() =~= s.drop_last().remove(i));
        assert(s.remove(i).last() == s.last());
        assert(tmap_of(s.remove(i)) == tmap_of(s.drop_last().remove(i)).insert(
            s.last().0@,
            tape_view(s.last().1@),
        ));
        assert(k != s.last().0@);
        assert(tmap_of(s.drop_last()).remove(k).insert(s.last().0@, tape_view(s.last().1@))
            =~= tmap_of(s).remove(k));
    }
}

impl View for TokenMap {
    type V = Map<Seq<char>, Seq<TokenS>>;

    closed spec fn view(&self) -> Map<Seq<char>, Seq<TokenS>> {
        tmap_of(self.entries@)
    }
}

impl TokenMap {
    pub closed spec fn wf(&self) -> bool {
        tmap_keys_unique(self.entries@)
    }

    /// An empty register.
    pub fn new() -> (r: TokenMap)
        ensures
            r.wf(),
            r@ == Map::<Seq<char>, Seq<TokenS>>::empty(),
    {
        TokenMap { entries: Vec::new() }
    }

    /// The body stored under a name, if any.
    pub fn get(&self, name: &String) -> (r: Option<&Vec<Token>>)
        requires
            self.wf(),
        ensures
            match r {
                Option::Some(body) => self@.contains_key(name@) && tape_view(body@)
                    == self@[name@],
                Option::None => !self@.contains_key(name@),
            },
    {
        let mut i: usize = 0;
        while i < self.entries.len()
            invariant
                i <= self.entries@.len(),
                self.wf(),
                forall|j: int| 0 <= j < i ==> self.entries@[j].0@ != name@,
            decreases self.entries@.len() - i,
        {
            let e = &self.entries[i];
            if string_eq(&e.0, name) {
                proof {
                    lemma_tmap_index(self.entries@, i as int);
                }
                return Option::Some(&e.1);
            }
            i = i + 1;
        }
        proof {
            lemma_tmap_contains(self.entries@);
        }
        Option::None
    }

    /// Drop the body under a name, if present.
    fn drop_name(&mut self, name: &String)
        requires
            old(self).wf(),
        ensures
            final(self).wf(),
            final(self)@ == old(self)@.remove(name@),
    {
        let mut i: usize = 0;
        while i < self.entries.len()
            invariant
                i <= self.entries@.len(),
                self.wf(),
                self.entries@ == old(self).entries@,
                forall|j: int| 0 <= j < i ==> self.entries@[j].0@ != name@,
            decreases self.entries@.len() - i,
        {
            let hit = string_eq(&self.entries[i].0, name);
            if hit {
                proof {
                    lemma_tmap_remove(self.entries@, i as int);
                }
                self.entries.remove(i);
                return ;
            }
            i = i + 1;
        }
        proof {
            lemma_tmap_contains(self.entries@);
            assert(final(self)@ =~= old(self)@.remove(name@));
        }
    }

    /// Store a body under a name, replacing any previous one.
    pub fn insert(&mut self, name: String, body: Vec<Token>)
        requires
            old(self).wf(),
        ensures
            final(self).wf(),
            final(self)@ == old(self)@.insert(name@, tape_view(body@)),
    {
        self.drop_name(&name);
        proof {
            lemma_tmap_contains(self.entries@);
            assert(!self@.contains_key(name@));
            assert forall|j: int| 0 <= j < self.entries@.len() implies self.entries@[j].0@
                != name@ by {
                if self.entries@[j].0@ == name@ {
                    assert(tmap_of(self.entries@).contains_key(name@));
                }
            }
        }
        let ghost pre = self.entries@;
        self.entries.push((name, body));
        proof {
            assert(self.entries@.drop_last() =~= pre);
            assert(self@ =~= old(self)@.insert(self.entries@.last().0@, tape_view(
                self.entries@.last().1@,
            )));
        }
    }
}

} // verus!
