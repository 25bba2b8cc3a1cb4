//! Laws of the adaptive decode/encode scheme, each proved once and for all
//! over the spec-level model that the executable functions are verified
//! against.

use vstd::prelude::*;

use crate::adaptive::{
    decode_entries, decode_value, encode_entries, names_map, DecodeErrorModel, FromName,
    FromValue, ToValue,
};
use crate::named_map::{lemma_deep_view_entries, views_map, NamedMap};
use crate::value::{is_text, text_of, ValueModel};

verus! {

/// Whether the codec of `T` inverts: decoding any encoded value yields that
/// value back. This is the element-level obligation under the round-trip
/// laws; the bundled `Item` codec satisfies it.
pub open spec fn codec_inverts<T: ToValue + FromValue>() -> bool {
    forall|tv: T::V| #[trigger] T::from_value_spec(T::to_value_spec(tv)) == Some(tv)
}

proof fn lemma_decode_encoded_entries<T: ToValue + FromValue>(es: Seq<(Seq<char>, T::V)>)
    requires
        codec_inverts::<T>(),
    ensures
        decode_entries::<T>(
            es.map_values(|e: (Seq<char>, T::V)| (e.0, T::to_value_spec(e.1))),
        ) == Ok::<Map<Seq<char>, T::V>, DecodeErrorModel>(views_map(es)),
    decreases es.len(),
{
    let f = |e: (Seq<char>, T::V)| (e.0, T::to_value_spec(e.1));
    let ms = es.map_values(f);
    if es.len() == 0 {
        assert(ms.len() == 0);
    } else {
        lemma_decode_encoded_entries::<T>(es.drop_last());
        assert(ms.drop_last() =~= es.drop_last().map_values(f));
        assert(ms.last() == f(es.last()));
        assert(T::from_value_spec(T::to_value_spec(es.last().1)) == Some(es.last().1));
    }
}

/// Law (round trip, mapping shape): however a collection was built, encoding
/// it — always in the mapping shape — and decoding the result yields a
/// collection with the same names and values of the same shape, provided the
/// element codec inverts.
pub proof fn lemma_round_trip_mapping<T: ToValue + FromValue + FromName>(m: &NamedMap<T>)
    requires
        codec_inverts::<T>(),
    ensures
        decode_value::<T>(encode_entries::<T>(m.deep_entries())) == Ok::<
            Map<Seq<char>, T::V>,
            DecodeErrorModel,
        >(m.deep_view()),
{
    lemma_decode_encoded_entries::<T>(m.deep_entries());
    lemma_deep_view_entries::<T>(m);
}

/// Each name of a sequence maps to exactly its placeholder value.
pub proof fn lemma_names_map_at<T: FromName>(names: Seq<Seq<char>>, k: Seq<char>)
    ensures
        names_map::<T>(names).contains_key(k) <==> names.contains(k),
        names.contains(k) ==> names_map::<T>(names)[k] == T::from_name_spec(k),
    decreases names.len(),
{
    if names.len() == 0 {
        assert(!names.contains(k));
    } else {
        lemma_names_map_at::<T>(names.drop_last(), k);
        if names.last() == k {
            assert(names[names.len() - 1] == k);
            assert(names.contains(k));
        } else {
            if names.contains(k) {
                let i = choose|i: int| 0 <= i < names.len() && names[i] == k;
                assert(names.drop_last()[i] == k);
                assert(names.drop_last().contains(k));
            }
            if names.drop_last().contains(k) {
                let i = choose|i: int|
                    0 <= i < names.drop_last().len() && names.drop_last()[i] == k;
                assert(names[i] == k);
                assert(names.contains(k));
            }
        }
    }
}

/// Law (round trip, sequence shape): a sequence of plain names decodes, and
/// the decoded collection holds exactly those names, each mapped to its
/// placeholder value. (That the collection then re-encodes in the mapping
/// shape, never the sequence shape, is the contract of `to_json_value`.)
pub proof fn lemma_sequence_decode<T: FromName + FromValue>(elems: Seq<ValueModel>)
    requires
        forall|i: int| 0 <= i < elems.len() ==> is_text(#[trigger] elems[i]),
    ensures
        ({
            let r = decode_value::<T>(ValueModel::List(elems));
            let names = elems.map_values(|e: ValueModel| text_of(e));
            &&& r is Ok
            &&& forall|k: Seq<char>| #![auto] r->Ok_0.contains_key(k) <==> names.contains(k)
            &&& forall|k: Seq<char>| #![auto]
                names.contains(k) ==> r->Ok_0[k] == T::from_name_spec(k)
        }),
{
    let names = elems.map_values(|e: ValueModel| text_of(e));
    assert forall|k: Seq<char>| #![auto]
        names_map::<T>(names).contains_key(k) <==> names.contains(k) by {
        lemma_names_map_at::<T>(names, k);
    }
    assert forall|k: Seq<char>| #![auto]
        names.contains(k) implies names_map::<T>(names)[k] == T::from_name_spec(k) by {
        lemma_names_map_at::<T>(names, k);
    }
}

/// Law (shape independence): giving a name a detailed value directly in the
/// mapping shape, and decoding the bare name from the sequence shape and
/// then upgrading it with the same detailed value, denote the same
/// collection — which re-encodes losslessly by the round-trip law.
///
/// Edits after decoding are covered in general: `insert`'s contract pins
/// the edited collection's view, and `lemma_round_trip_mapping` applies to
/// any collection, however built or edited.
pub proof fn lemma_shape_independence<T: ToValue + FromValue + FromName>(k: Seq<char>, tv: T::V)
    requires
        codec_inverts::<T>(),
    ensures
        decode_value::<T>(ValueModel::Record(seq![(k, T::to_value_spec(tv))])) == Ok::<
            Map<Seq<char>, T::V>,
            DecodeErrorModel,
        >(Map::<Seq<char>, T::V>::empty().insert(k, tv)),
        decode_value::<T>(ValueModel::List(seq![ValueModel::Text(k)])) == Ok::<
            Map<Seq<char>, T::V>,
            DecodeErrorModel,
        >(Map::<Seq<char>, T::V>::empty().insert(k, T::from_name_spec(k))),
        Map::<Seq<char>, T::V>::empty().insert(k, T::from_name_spec(k)).insert(k, tv) == Map::<
            Seq<char>,
            T::V,
        >::empty().insert(k, tv),
{
    let es = seq![(k, T::to_value_spec(tv))];
    assert(es.drop_last() =~= Seq::<(Seq<char>, ValueModel)>::empty());
    assert(decode_entries::<T>(es.drop_last()) == Ok::<Map<Seq<char>, T::V>, DecodeErrorModel>(
        Map::empty(),
    ));
    assert(es.last() == (k, T::to_value_spec(tv)));
    assert(T::from_value_spec(T::to_value_spec(tv)) == Some(tv));
    let ls = seq![ValueModel::Text(k)];
    assert(forall|i: int| 0 <= i < ls.len() ==> is_text(#[trigger] ls[i]));
    let names = ls.map_values(|e: ValueModel| text_of(e));
    assert(names.last() == k);
    assert(names.drop_last() =~= Seq::<Seq<char>>::empty());
    assert(names_map::<T>(names.drop_last()) == Map::<Seq<char>, T::V>::empty());
    assert(Map::<Seq<char>, T::V>::empty().insert(k, T::from_name_spec(k)).insert(k, tv)
        =~= Map::<Seq<char>, T::V>::empty().insert(k, tv));
}

/// Law (invalid shape rejection): a top-level scalar — anything that is
/// neither a sequence nor a mapping — fails with the shape error; no empty
/// or partial collection is produced.
pub proof fn lemma_scalar_rejected<T: FromName + FromValue>(v: ValueModel)
    requires
        !(v is List),
        !(v is Record),
    ensures
        decode_value::<T>(v) == Err::<Map<Seq<char>, T::V>, DecodeErrorModel>(
            DecodeErrorModel::WrongShape,
        ),
{
}

/// Law (invalid sequence element rejection): a sequence holding any
/// non-string element fails with the element-type error.
pub proof fn lemma_mixed_sequence_rejected<T: FromName + FromValue>(
    elems: Seq<ValueModel>,
    i: int,
)
    requires
        0 <= i < elems.len(),
        !is_text(elems[i]),
    ensures
        decode_value::<T>(ValueModel::List(elems)) == Err::<Map<Seq<char>, T::V>, DecodeErrorModel>(
            DecodeErrorModel::BadElement,
        ),
{
    assert(!(forall|j: int| 0 <= j < elems.len() ==> is_text(#[trigger] elems[j])));
}

/// Law (emptiness): the empty sequence and the empty mapping both decode to
/// a valid, empty collection, not an error.
pub proof fn lemma_empty_inputs<T: FromName + FromValue>()
    ensures
        decode_value::<T>(ValueModel::List(Seq::empty())) == Ok::<
            Map<Seq<char>, T::V>,
            DecodeErrorModel,
        >(Map::empty()),
        decode_value::<T>(ValueModel::Record(Seq::empty())) == Ok::<
            Map<Seq<char>, T::V>,
            DecodeErrorModel,
        >(Map::empty()),
{
    assert(Seq::<ValueModel>::empty().map_values(|e: ValueModel| text_of(e)) =~= Seq::<
        Seq<char>,
    >::empty());
}

} // verus!
