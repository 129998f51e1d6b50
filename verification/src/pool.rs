//! Values that can be put back into a pool and used again.
use hashlink::{DefaultHashBuilder, LinkedHashMap, LinkedHashSet};
use rustc_hash::FxBuildHasher;
use std::borrow::Cow;
use std::collections::{BTreeMap, BTreeSet, HashMap, HashSet, VecDeque};
use vstd::prelude::*;

verus! {

/// A value that a pool can hand out again.
pub trait Recyclable: Sized {
    /// The value is as good as new.
    spec fn is_new(&self) -> bool;

    /// `after` is what a reset makes of `before`.
    spec fn is_reset(before: &Self, after: &Self) -> bool;

    fn new() -> (r: Self)
        ensures
            r.is_new(),
    ;

    fn reset(&mut self)
        ensures
            Self::is_reset(old(self), final(self)),
    ;

    fn should_put_to_pool(&self) -> (r: bool)
        default_ensures
            r,
    {
        true
    }
}

/// A vector for pools whose reset does nothing: the user has to be careful.
/// Useful if performance matters.
#[derive(Debug, Clone)]
pub struct UnclearedVec<T> {
    pub items: Vec<T>,
}

impl<T> Default for UnclearedVec<T> {
    fn default() -> (r: Self)
        ensures
            r.items@.len() == 0,
    {
        UnclearedVec { items: Vec::new() }
    }
}

impl<T> Recyclable for UnclearedVec<T> {
    open spec fn is_new(&self) -> bool {
        self.items@.len() == 0
    }

    open spec fn is_reset(before: &Self, after: &Self) -> bool {
        after == before
    }

    fn new() -> (r: Self) {
        UnclearedVec { items: Vec::new() }
    }

    fn reset(&mut self) {
    }
}

impl<T> Recyclable for Vec<T> {
    open spec fn is_new(&self) -> bool {
        self@.len() == 0
    }

    open spec fn is_reset(before: &Self, after: &Self) -> bool {
        after@.len() == 0
    }

    fn new() -> (r: Self) {
        Vec::new()
    }

    fn reset(&mut self) {
        self.clear();
    }
}

impl<T> Recyclable for VecDeque<T> {
    open spec fn is_new(&self) -> bool {
        self@.len() == 0
    }

    open spec fn is_reset(before: &Self, after: &Self) -> bool {
        after@.len() == 0
    }

    fn new() -> (r: Self) {
        VecDeque::new()
    }

    fn reset(&mut self) {
        self.clear();
    }
}

impl<K, V> Recyclable for BTreeMap<K, V> {
    open spec fn is_new(&self) -> bool {
        self@ == Map::<K, V>::empty()
    }

    open spec fn is_reset(before: &Self, after: &Self) -> bool {
        after@ == Map::<K, V>::empty()
    }

    fn new() -> (r: Self) {
        BTreeMap::default()
    }

    fn reset(&mut self) {
        self.clear();
    }
}

impl<K> Recyclable for BTreeSet<K> {
    open spec fn is_new(&self) -> bool {
        self@ == Set::<K>::empty()
    }

    open spec fn is_reset(before: &Self, after: &Self) -> bool {
        after@ == Set::<K>::empty()
    }

    fn new() -> (r: Self) {
        BTreeSet::default()
    }

    fn reset(&mut self) {
        self.clear();
    }
}

impl<K, V> Recyclable for HashMap<K, V> {
    open spec fn is_new(&self) -> bool {
        self@ == Map::<K, V>::empty()
    }

    open spec fn is_reset(before: &Self, after: &Self) -> bool {
        after@ == Map::<K, V>::empty()
    }

    fn new() -> (r: Self) {
        HashMap::default()
    }

    fn reset(&mut self) {
        self.clear();
    }
}

impl<K> Recyclable for HashSet<K> {
    open spec fn is_new(&self) -> bool {
        self@ == Set::<K>::empty()
    }

    open spec fn is_reset(before: &Self, after: &Self) -> bool {
        after@ == Set::<K>::empty()
    }

    fn new() -> (r: Self) {
        HashSet::default()
    }

    fn reset(&mut self) {
        self.clear();
    }
}

/// The hasher of `rustc_hash`.
#[verifier::external_type_specification]
#[verifier::external_body]
pub struct ExFxBuildHasher(FxBuildHasher);

impl<K, V> Recyclable for HashMap<K, V, FxBuildHasher> {
    open spec fn is_new(&self) -> bool {
        self@ == Map::<K, V>::empty()
    }

    open spec fn is_reset(before: &Self, after: &Self) -> bool {
        after@ == Map::<K, V>::empty()
    }

    fn new() -> (r: Self) {
        HashMap::default()
    }

    fn reset(&mut self) {
        self.clear();
    }
}

impl<K> Recyclable for HashSet<K, FxBuildHasher> {
    open spec fn is_new(&self) -> bool {
        self@ == Set::<K>::empty()
    }

    open spec fn is_reset(before: &Self, after: &Self) -> bool {
        after@ == Set::<K>::empty()
    }

    fn new() -> (r: Self) {
        HashSet::default()
    }

    fn reset(&mut self) {
        self.clear();
    }
}

/// The linked map of `hashlink`, which keeps the order of insertion.
#[verifier::external_type_specification]
#[verifier::external_body]
#[verifier::reject_recursive_types(K)]
#[verifier::reject_recursive_types(V)]
#[verifier::reject_recursive_types(S)]
pub struct ExLinkedHashMap<K, V, S>(LinkedHashMap<K, V, S>);

/// The linked set of `hashlink`, which keeps the order of insertion.
#[verifier::external_type_specification]
#[verifier::external_body]
#[verifier::reject_recursive_types(T)]
#[verifier::reject_recursive_types(S)]
pub struct ExLinkedHashSet<T, S>(LinkedHashSet<T, S>);

/// The default hasher of `hashlink`.
#[verifier::external_type_specification]
#[verifier::external_body]
pub struct ExDefaultHashBuilder(DefaultHashBuilder);

/// `LinkedHashMap::is_empty` tells whether there are no entries. It is the
/// measure of what is said of the other functions here.
pub assume_specification<K, V, S>[ LinkedHashMap::<K, V, S>::is_empty ](
    map: &LinkedHashMap<K, V, S>,
) -> bool
;

/// `LinkedHashSet::is_empty` tells whether there are no items.
pub assume_specification<T, S>[ LinkedHashSet::<T, S>::is_empty ](
    set: &LinkedHashSet<T, S>,
) -> bool
;

/// All that `is_empty` can say of the map is that it is empty.
pub open spec fn is_empty_map<K, V, S>(map: &LinkedHashMap<K, V, S>) -> bool {
    forall|r: bool| #[trigger]
        call_ensures(LinkedHashMap::<K, V, S>::is_empty, (map,), r) ==> r
}

/// All that `is_empty` can say of the set is that it is empty.
pub open spec fn is_empty_set<T, S>(set: &LinkedHashSet<T, S>) -> bool {
    forall|r: bool| #[trigger]
        call_ensures(LinkedHashSet::<T, S>::is_empty, (set,), r) ==> r
}

/// `LinkedHashMap::default` makes a map without entries.
#[verifier::external_body]
fn empty_linked_map<K, V, S: Default>() -> (r: LinkedHashMap<K, V, S>)
    ensures
        is_empty_map(&r),
{
    LinkedHashMap::default()
}

/// `LinkedHashMap::clear` removes all entries.
#[verifier::external_body]
fn clear_linked_map<K, V, S>(map: &mut LinkedHashMap<K, V, S>)
    ensures
        is_empty_map(final(map)),
{
    map.clear();
}

/// `LinkedHashSet::default` makes a set without items.
#[verifier::external_body]
fn empty_linked_set<T, S: Default>() -> (r: LinkedHashSet<T, S>)
    ensures
        is_empty_set(&r),
{
    LinkedHashSet::default()
}

/// `LinkedHashSet::clear` removes all items.
#[verifier::external_body]
fn clear_linked_set<T, S>(set: &mut LinkedHashSet<T, S>)
    ensures
        is_empty_set(final(set)),
{
    set.clear();
}

impl<K, V> Recyclable for LinkedHashMap<K, V, DefaultHashBuilder> {
    open spec fn is_new(&self) -> bool {
        is_empty_map(self)
    }

    open spec fn is_reset(before: &Self, after: &Self) -> bool {
        is_empty_map(after)
    }

    fn new() -> (r: Self) {
        empty_linked_map()
    }

    fn reset(&mut self) {
        clear_linked_map(self);
    }
}

impl<K> Recyclable for LinkedHashSet<K, DefaultHashBuilder> {
    open spec fn is_new(&self) -> bool {
        is_empty_set(self)
    }

    open spec fn is_reset(before: &Self, after: &Self) -> bool {
        is_empty_set(after)
    }

    fn new() -> (r: Self) {
        empty_linked_set()
    }

    fn reset(&mut self) {
        clear_linked_set(self);
    }
}

impl<K, V> Recyclable for LinkedHashMap<K, V, FxBuildHasher> {
    open spec fn is_new(&self) -> bool {
        is_empty_map(self)
    }

    open spec fn is_reset(before: &Self, after: &Self) -> bool {
        is_empty_map(after)
    }

    fn new() -> (r: Self) {
        empty_linked_map()
    }

    fn reset(&mut self) {
        clear_linked_map(self);
    }
}

impl<K> Recyclable for LinkedHashSet<K, FxBuildHasher> {
    open spec fn is_new(&self) -> bool {
        is_empty_set(self)
    }

    open spec fn is_reset(before: &Self, after: &Self) -> bool {
        is_empty_set(after)
    }

    fn new() -> (r: Self) {
        empty_linked_set()
    }

    fn reset(&mut self) {
        clear_linked_set(self);
    }
}

/// `String::clear` removes all contents.
pub assume_specification[ String::clear ](s: &mut String)
    ensures
        final(s)@.len() == 0,
;

impl Recyclable for String {
    open spec fn is_new(&self) -> bool {
        self@.len() == 0
    }

    open spec fn is_reset(before: &Self, after: &Self) -> bool {
        after@.len() == 0
    }

    fn new() -> (r: Self) {
        let r = String::new();
        proof {
            reveal_strlit("");
        }
        r
    }

    fn reset(&mut self) {
        self.clear();
    }
}

/// Boxed values are recycled as what is in the box. Making one allocates.
impl<T: Recyclable> Recyclable for Box<T> {
    open spec fn is_new(&self) -> bool {
        (**self).is_new()
    }

    open spec fn is_reset(before: &Self, after: &Self) -> bool {
        T::is_reset(&**before, &**after)
    }

    fn new() -> (r: Self) {
        Box::new(T::new())
    }

    fn reset(&mut self) {
        (**self).reset();
    }
}

/// A borrowed slice or a vector. A reset leaves an empty vector.
impl<'a, T: Clone> Recyclable for Cow<'a, [T]> {
    open spec fn is_new(&self) -> bool {
        match self {
            Cow::Borrowed(items) => items@.len() == 0,
            Cow::Owned(items) => items@.len() == 0,
        }
    }

    open spec fn is_reset(before: &Self, after: &Self) -> bool {
        after matches Cow::Owned(items) && items@.len() == 0
    }

    fn new() -> (r: Self) {
        Cow::Owned(Vec::new())
    }

    fn reset(&mut self) {
        match self {
            Cow::Owned(items) => {
                items.clear();
            },
            Cow::Borrowed(_) => {
                *self = Cow::Owned(Vec::new());
            },
        }
    }
}

/// A vector that is handed out is empty.
pub proof fn vectors_are_recycled_empty<T>(r: Vec<T>, v: &mut Vec<T>)
    requires
        call_ensures(<Vec<T> as Recyclable>::new, (), r),
        call_ensures(<Vec<T> as Recyclable>::reset, (v,), ()),
    ensures
        r@.len() == 0,
        final(v)@.len() == 0,
{
}

/// A queue that is handed out is empty.
pub proof fn deques_are_recycled_empty<T>(r: VecDeque<T>, v: &mut VecDeque<T>)
    requires
        call_ensures(<VecDeque<T> as Recyclable>::new, (), r),
        call_ensures(<VecDeque<T> as Recyclable>::reset, (v,), ()),
    ensures
        r@.len() == 0,
        final(v)@.len() == 0,
{
}

/// An uncleared vector starts empty, and keeps its items.
pub proof fn uncleared_vectors_keep_their_items<T>(r: UnclearedVec<T>, v: &mut UnclearedVec<T>)
    requires
        call_ensures(<UnclearedVec<T> as Recyclable>::new, (), r),
        call_ensures(<UnclearedVec<T> as Recyclable>::reset, (v,), ()),
    ensures
        r.items@.len() == 0,
        final(v).items@ == old(v).items@,
{
}

/// A map that is handed out is empty.
pub proof fn ordered_maps_are_recycled_empty<K, V>(r: BTreeMap<K, V>, v: &mut BTreeMap<K, V>)
    requires
        call_ensures(<BTreeMap<K, V> as Recyclable>::new, (), r),
        call_ensures(<BTreeMap<K, V> as Recyclable>::reset, (v,), ()),
    ensures
        forall|k: K| !(#[trigger] r@.contains_key(k)),
        forall|k: K| !(#[trigger] final(v)@.contains_key(k)),
{
}

/// A map that is handed out is empty.
pub proof fn hash_maps_are_recycled_empty<K, V>(r: HashMap<K, V>, v: &mut HashMap<K, V>)
    requires
        call_ensures(<HashMap<K, V> as Recyclable>::new, (), r),
        call_ensures(<HashMap<K, V> as Recyclable>::reset, (v,), ()),
    ensures
        forall|k: K| !(#[trigger] r@.contains_key(k)),
        forall|k: K| !(#[trigger] final(v)@.contains_key(k)),
{
}

/// A map that is handed out is empty.
pub proof fn fast_hash_maps_are_recycled_empty<K, V>(r: HashMap<K, V, FxBuildHasher>, v: &mut HashMap<K, V, FxBuildHasher>)
    requires
        call_ensures(<HashMap<K, V, FxBuildHasher> as Recyclable>::new, (), r),
        call_ensures(<HashMap<K, V, FxBuildHasher> as Recyclable>::reset, (v,), ()),
    ensures
        forall|k: K| !(#[trigger] r@.contains_key(k)),
        forall|k: K| !(#[trigger] final(v)@.contains_key(k)),
{
}

/// A set that is handed out is empty.
pub proof fn ordered_sets_are_recycled_empty<K>(r: BTreeSet<K>, v: &mut BTreeSet<K>)
    requires
        call_ensures(<BTreeSet<K> as Recyclable>::new, (), r),
        call_ensures(<BTreeSet<K> as Recyclable>::reset, (v,), ()),
    ensures
        forall|k: K| !(#[trigger] r@.contains(k)),
        forall|k: K| !(#[trigger] final(v)@.contains(k)),
{
}

/// A set that is handed out is empty.
pub proof fn hash_sets_are_recycled_empty<K>(r: HashSet<K>, v: &mut HashSet<K>)
    requires
        call_ensures(<HashSet<K> as Recyclable>::new, (), r),
        call_ensures(<HashSet<K> as Recyclable>::reset, (v,), ()),
    ensures
        forall|k: K| !(#[trigger] r@.contains(k)),
        forall|k: K| !(#[trigger] final(v)@.contains(k)),
{
}

/// A set that is handed out is empty.
pub proof fn fast_hash_sets_are_recycled_empty<K>(r: HashSet<K, FxBuildHasher>, v: &mut HashSet<K, FxBuildHasher>)
    requires
        call_ensures(<HashSet<K, FxBuildHasher> as Recyclable>::new, (), r),
        call_ensures(<HashSet<K, FxBuildHasher> as Recyclable>::reset, (v,), ()),
    ensures
        forall|k: K| !(#[trigger] r@.contains(k)),
        forall|k: K| !(#[trigger] final(v)@.contains(k)),
{
}

/// A string that is handed out is empty.
pub proof fn strings_are_recycled_empty(r: String, v: &mut String)
    requires
        call_ensures(<String as Recyclable>::new, (), r),
        call_ensures(<String as Recyclable>::reset, (v,), ()),
    ensures
        r@.len() == 0,
        final(v)@.len() == 0,
{
}

/// A boxed value is recycled as what is in the box.
pub proof fn boxes_are_recycled_as_their_contents<T: Recyclable>(r: Box<T>, v: &mut Box<T>)
    requires
        call_ensures(<Box<T> as Recyclable>::new, (), r),
        call_ensures(<Box<T> as Recyclable>::reset, (v,), ()),
    ensures
        (*r).is_new(),
        T::is_reset(&**old(v), &**final(v)),
{
}

/// A slice that is handed out is an empty vector.
pub proof fn slices_are_recycled_as_empty_vectors<'a, T: Clone>(
    r: Cow<'a, [T]>,
    v: &mut Cow<'a, [T]>,
)
    requires
        call_ensures(<Cow<'a, [T]> as Recyclable>::new, (), r),
        call_ensures(<Cow<'a, [T]> as Recyclable>::reset, (v,), ()),
    ensures
        r matches Cow::Owned(items) ==> items@.len() == 0,
        r matches Cow::Borrowed(items) ==> items@.len() == 0,
        *final(v) matches Cow::Owned(items) && items@.len() == 0,
{
}

/// Every value goes back to its pool unless it says otherwise.
pub proof fn values_go_back_to_their_pool<T>(v: Vec<T>, r: bool)
    requires
        call_ensures(<Vec<T> as Recyclable>::should_put_to_pool, (&v,), r),
    ensures
        r,
{
}

/// What is handed out is empty.
pub proof fn linked_maps_are_recycled_empty<K, V>(r: LinkedHashMap<K, V, DefaultHashBuilder>, v: &mut LinkedHashMap<K, V, DefaultHashBuilder>, a: bool, b: bool)
    requires
        call_ensures(<LinkedHashMap<K, V, DefaultHashBuilder> as Recyclable>::new, (), r),
        call_ensures(<LinkedHashMap<K, V, DefaultHashBuilder> as Recyclable>::reset, (v,), ()),
        call_ensures(LinkedHashMap::<K, V, DefaultHashBuilder>::is_empty, (&r,), a),
        call_ensures(LinkedHashMap::<K, V, DefaultHashBuilder>::is_empty, (final(v),), b),
    ensures
        a,
        b,
{
}

/// What is handed out is empty.
pub proof fn fast_linked_maps_are_recycled_empty<K, V>(r: LinkedHashMap<K, V, FxBuildHasher>, v: &mut LinkedHashMap<K, V, FxBuildHasher>, a: bool, b: bool)
    requires
        call_ensures(<LinkedHashMap<K, V, FxBuildHasher> as Recyclable>::new, (), r),
        call_ensures(<LinkedHashMap<K, V, FxBuildHasher> as Recyclable>::reset, (v,), ()),
        call_ensures(LinkedHashMap::<K, V, FxBuildHasher>::is_empty, (&r,), a),
        call_ensures(LinkedHashMap::<K, V, FxBuildHasher>::is_empty, (final(v),), b),
    ensures
        a,
        b,
{
}

/// What is handed out is empty.
pub proof fn linked_sets_are_recycled_empty<K>(r: LinkedHashSet<K, DefaultHashBuilder>, v: &mut LinkedHashSet<K, DefaultHashBuilder>, a: bool, b: bool)
    requires
        call_ensures(<LinkedHashSet<K, DefaultHashBuilder> as Recyclable>::new, (), r),
        call_ensures(<LinkedHashSet<K, DefaultHashBuilder> as Recyclable>::reset, (v,), ()),
        call_ensures(LinkedHashSet::<K, DefaultHashBuilder>::is_empty, (&r,), a),
        call_ensures(LinkedHashSet::<K, DefaultHashBuilder>::is_empty, (final(v),), b),
    ensures
        a,
        b,
{
}

/// What is handed out is empty.
pub proof fn fast_linked_sets_are_recycled_empty<K>(r: LinkedHashSet<K, FxBuildHasher>, v: &mut LinkedHashSet<K, FxBuildHasher>, a: bool, b: bool)
    requires
        call_ensures(<LinkedHashSet<K, FxBuildHasher> as Recyclable>::new, (), r),
        call_ensures(<LinkedHashSet<K, FxBuildHasher> as Recyclable>::reset, (v,), ()),
        call_ensures(LinkedHashSet::<K, FxBuildHasher>::is_empty, (&r,), a),
        call_ensures(LinkedHashSet::<K, FxBuildHasher>::is_empty, (final(v),), b),
    ensures
        a,
        b,
{
}

} // verus!
