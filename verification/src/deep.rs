//! Sequences of models: how the deep view of a vector follows its operations.

use vstd::prelude::*;

verus! {

/// The models of the elements of `s`, in order.
pub open spec fn models<T: DeepView>(s: Seq<T>) -> Seq<T::V> {
    Seq::new(s.len(), |i: int| s[i].deep_view())
}

pub broadcast proof fn lemma_vec_models<T: DeepView>(v: Vec<T>)
    ensures
        #[trigger] v.deep_view() == models(v@),
{
    assert(v.deep_view() =~= models(v@));
}

pub broadcast proof fn lemma_models_len<T: DeepView>(s: Seq<T>)
    ensures
        #[trigger] models(s).len() == s.len(),
{
}

pub broadcast proof fn lemma_models_index<T: DeepView>(s: Seq<T>, i: int)
    requires
        0 <= i < s.len(),
    ensures
        #[trigger] models(s)[i] == s[i].deep_view(),
{
}

pub broadcast proof fn lemma_models_empty<T: DeepView>()
    ensures
        #[trigger] models(Seq::<T>::empty()) == Seq::<T::V>::empty(),
{
    assert(models(Seq::<T>::empty()) =~= Seq::<T::V>::empty());
}

pub broadcast proof fn lemma_models_push<T: DeepView>(s: Seq<T>, x: T)
    ensures
        #[trigger] models(s.push(x)) == models(s).push(x.deep_view()),
{
    assert(models(s.push(x)) =~= models(s).push(x.deep_view()));
}

pub broadcast proof fn lemma_models_update<T: DeepView>(s: Seq<T>, i: int, x: T)
    requires
        0 <= i < s.len(),
    ensures
        #[trigger] models(s.update(i, x)) == models(s).update(i, x.deep_view()),
{
    assert(models(s.update(i, x)) =~= models(s).update(i, x.deep_view()));
}

pub broadcast proof fn lemma_models_insert<T: DeepView>(s: Seq<T>, i: int, x: T)
    requires
        0 <= i <= s.len(),
    ensures
        #[trigger] models(s.insert(i, x)) == models(s).insert(i, x.deep_view()),
{
    assert(models(s.insert(i, x)) =~= models(s).insert(i, x.deep_view()));
}

pub broadcast proof fn lemma_models_remove<T: DeepView>(s: Seq<T>, i: int)
    requires
        0 <= i < s.len(),
    ensures
        #[trigger] models(s.remove(i)) == models(s).remove(i),
{
    assert(models(s.remove(i)) =~= models(s).remove(i));
}

pub broadcast proof fn lemma_models_subrange<T: DeepView>(s: Seq<T>, i: int, j: int)
    requires
        0 <= i <= j <= s.len(),
    ensures
        #[trigger] models(s.subrange(i, j)) == models(s).subrange(i, j),
{
    assert(models(s.subrange(i, j)) =~= models(s).subrange(i, j));
}

pub broadcast proof fn lemma_models_add<T: DeepView>(s: Seq<T>, t: Seq<T>)
    ensures
        #[trigger] models(s + t) == models(s) + models(t),
{
    assert(models(s + t) =~= models(s) + models(t));
}

pub broadcast group group_models {
    lemma_vec_models,
    lemma_models_len,
    lemma_models_index,
    lemma_models_empty,
    lemma_models_push,
    lemma_models_update,
    lemma_models_insert,
    lemma_models_remove,
    lemma_models_subrange,
    lemma_models_add,
}

} // verus!
