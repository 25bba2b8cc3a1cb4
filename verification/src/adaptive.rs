//! Dual-format decoding and canonical encoding for `NamedMap`.
//!
//! A structured input is accepted in either of two shapes: a sequence of
//! plain name strings, each expanded to a placeholder value through
//! [`FromName`], or a mapping from name to detailed value, each value decoded
//! through [`FromValue`]. Output through [`ToValue`] is always the mapping
//! shape, whichever shape was read.

use vstd::prelude::*;

use crate::named_map::{lemma_map_values_insert, NamedMap};
use crate::value::{is_text, list_model, record_model, text_of, Value, ValueModel};

verus! {

broadcast use vstd::std_specs::vec::group_vec_axioms;

/// The capability to construct a placeholder value of a type from a bare
/// name, used only on the sequence-of-names decode path.
pub trait FromName: Sized + Clone + DeepView {
    /// The shape of the placeholder constructed from `name`.
    spec fn from_name_spec(name: Seq<char>) -> Self::V;

    /// Construct a value from its name.
    ///
    /// This operation is total: even a malformed name must produce some
    /// sensible fallback value. Validation belongs to a higher layer.
    fn from_name(name: &str) -> (r: Self)
        ensures
            r.deep_view() == Self::from_name_spec(name@),
    ;
}

/// The structural-decode half of the codec boundary: how a detailed value of
/// this type is read from the generic structured form.
pub trait FromValue: Sized + DeepView {
    /// Which shapes decode, and to what.
    spec fn from_value_spec(v: ValueModel) -> Option<Self::V>;

    /// Decode a structured value, `None` exactly when its shape is rejected.
    fn from_value(v: &Value) -> (r: Option<Self>)
        ensures
            match r {
                Some(t) => Self::from_value_spec(v.deep_view()) == Some(t.deep_view()),
                None => Self::from_value_spec(v.deep_view()) is None,
            },
    ;
}

/// The structural-encode half of the codec boundary: how a value of this
/// type is written to the generic structured form.
pub trait ToValue: Sized + DeepView {
    /// The shape this type encodes to.
    spec fn to_value_spec(t: Self::V) -> ValueModel;

    /// Encode to a structured value.
    fn to_value(&self) -> (r: Value)
        ensures
            r.deep_view() == Self::to_value_spec(self.deep_view()),
    ;
}

/// Why a decode failed; decoding is all-or-nothing, so no partial collection
/// accompanies an error.
#[derive(Debug, Clone, PartialEq, Eq)]
pub enum DecodeError {
    /// The top-level input is neither a sequence nor a mapping.
    WrongShape,
    /// A sequence element is not a plain string.
    BadElement,
    /// The value of the named mapping entry failed to decode.
    BadEntry(String),
}

/// The shape of a `DecodeError`.
pub enum DecodeErrorModel {
    WrongShape,
    BadElement,
    BadEntry(Seq<char>),
}

impl DeepView for DecodeError {
    type V = DecodeErrorModel;

    open spec fn deep_view(&self) -> DecodeErrorModel {
        match self {
            DecodeError::WrongShape => DecodeErrorModel::WrongShape,
            DecodeError::BadElement => DecodeErrorModel::BadElement,
            DecodeError::BadEntry(k) => DecodeErrorModel::BadEntry(k@),
        }
    }
}

/// The map built from a sequence of names: each name associated with its
/// placeholder value.
pub open spec fn names_map<T: FromName>(names: Seq<Seq<char>>) -> Map<Seq<char>, T::V>
    decreases names.len(),
{
    if names.len() == 0 {
        Map::empty()
    } else {
        names_map::<T>(names.drop_last()).insert(
            names.last(),
            T::from_name_spec(names.last()),
        )
    }
}

/// Decoding the sequence shape: every element must be a plain string, and
/// then every name maps to its placeholder.
pub open spec fn decode_names<T: FromName>(elems: Seq<ValueModel>) -> Result<
    Map<Seq<char>, T::V>,
    DecodeErrorModel,
> {
    if forall|i: int| 0 <= i < elems.len() ==> is_text(#[trigger] elems[i]) {
        Ok(names_map::<T>(elems.map_values(|e: ValueModel| text_of(e))))
    } else {
        Err(DecodeErrorModel::BadElement)
    }
}

/// Decoding the mapping shape: every value must decode as `T`; the first
/// entry whose value does not decode names the failure; a later entry wins
/// over an earlier one with the same name.
pub open spec fn decode_entries<T: FromValue>(entries: Seq<(Seq<char>, ValueModel)>) -> Result<
    Map<Seq<char>, T::V>,
    DecodeErrorModel,
>
    decreases entries.len(),
{
    if entries.len() == 0 {
        Ok(Map::empty())
    } else {
        match decode_entries::<T>(entries.drop_last()) {
            Ok(m) => match T::from_value_spec(entries.last().1) {
                Some(tv) => Ok(m.insert(entries.last().0, tv)),
                None => Err(DecodeErrorModel::BadEntry(entries.last().0)),
            },
            Err(e) => Err(e),
        }
    }
}

/// The whole adaptive decode: dispatch on the top-level structural kind
/// alone; anything that is neither a sequence nor a mapping is rejected.
pub open spec fn decode_value<T: FromName + FromValue>(v: ValueModel) -> Result<
    Map<Seq<char>, T::V>,
    DecodeErrorModel,
> {
    match v {
        ValueModel::Record(entries) => decode_entries::<T>(entries),
        ValueModel::List(elems) => decode_names::<T>(elems),
        _ => Err(DecodeErrorModel::WrongShape),
    }
}

/// The canonical encoding of an abstract entry list: always the mapping
/// shape, never the sequence shape.
pub open spec fn encode_entries<T: ToValue>(es: Seq<(Seq<char>, T::V)>) -> ValueModel {
    ValueModel::Record(es.map_values(|e: (Seq<char>, T::V)| (e.0, T::to_value_spec(e.1))))
}

/// An error in an entry prefix decides the whole mapping decode.
proof fn lemma_decode_entries_err<T: FromValue>(s: Seq<(Seq<char>, ValueModel)>, i: int)
    requires
        0 <= i < s.len(),
        decode_entries::<T>(s.take(i)) is Ok,
        T::from_value_spec(s[i].1) is None,
    ensures
        decode_entries::<T>(s) == Err::<Map<Seq<char>, T::V>, _>(
            DecodeErrorModel::BadEntry(s[i].0),
        ),
    decreases s.len(),
{
    if i == s.len() - 1 {
        assert(s.take(i) =~= s.drop_last());
        assert(s.last() == s[i]);
    } else {
        assert(s.drop_last().take(i) =~= s.take(i));
        assert(s.drop_last()[i] == s[i]);
        lemma_decode_entries_err::<T>(s.drop_last(), i);
    }
}

impl<T: FromName> NamedMap<T> {
    /// Builds a collection from a plain list of names, every name mapped to
    /// its placeholder value.
    pub fn from_names(list: Vec<String>) -> (r: Self)
        ensures
            r.wf(),
            r.deep_view() == names_map::<T>(list@.map_values(|s: String| s@)),
    {
        let ghost ns = list@.map_values(|s: String| s@);
        let mut m = NamedMap::<T>::new();
        proof {
            assert(ns.take(0) =~= Seq::<Seq<char>>::empty());
            assert(m.deep_view() =~= Map::<Seq<char>, T::V>::empty());
        }
        let mut i: usize = 0;
        while i < list.len()
            invariant
                i <= list@.len(),
                ns == list@.map_values(|s: String| s@),
                ns.len() == list@.len(),
                m.wf(),
                m.deep_view() == names_map::<T>(ns.take(i as int)),
            decreases list@.len() - i,
        {
            let t = T::from_name(list[i].as_str());
            let ghost mv0 = m@;
            m.insert(list[i].clone(), t);
            proof {
                lemma_map_values_insert(mv0, list@[i as int]@, t, |x: T| x.deep_view());
                assert(ns.take(i + 1 as int).drop_last() =~= ns.take(i as int));
                assert(ns.take(i + 1 as int).last() == ns[i as int]);
                assert(ns[i as int] == list@[i as int]@);
                assert(m.deep_view() =~= names_map::<T>(ns.take(i + 1 as int)));
            }
            i = i + 1;
        }
        proof {
            assert(ns.take(list@.len() as int) =~= ns);
        }
        m
    }
}

impl<T: FromName + FromValue> NamedMap<T> {
    /// Builds the collection from a sequence of names, each value decoded.
    fn from_list(items: Vec<Value>) -> (r: Result<Self, DecodeError>)
        ensures
            match r {
                Ok(m) => m.wf() && decode_names::<T>(list_model(items@)) == Ok::<Map<Seq<char>, T::V>, DecodeErrorModel>(m.deep_view()),
                Err(e) => decode_names::<T>(list_model(items@)) == Err::<
                    Map<Seq<char>, T::V>,
                    _,
                >(e.deep_view()),
            },
    {
        let ghost lm = list_model(items@);
        let mut m = NamedMap::<T>::new();
        let mut i: usize = 0;
        while i < items.len()
            invariant
                i <= items@.len(),
                lm == list_model(items@),
                lm.len() == items@.len(),
                m.wf(),
                forall|a: int| 0 <= a < i ==> is_text(#[trigger] lm[a]),
                m.deep_view() == names_map::<T>(
                    lm.take(i as int).map_values(|e: ValueModel| text_of(e)),
                ),
            decreases items@.len() - i,
        {
            match &items[i] {
                Value::Text(s) => {
                    let t = T::from_name(s.as_str());
                    let ghost mv0 = m@;
                    m.insert(s.clone(), t);
                    proof {
                        lemma_map_values_insert(mv0, s@, t, |x: T| x.deep_view());
                        let ns = lm.take(i + 1 as int).map_values(|e: ValueModel| text_of(e));
                        assert(ns.drop_last() =~= lm.take(i as int).map_values(
                            |e: ValueModel| text_of(e),
                        ));
                        assert(lm[i as int] == ValueModel::Text(s@));
                        assert(ns.last() == s@);
                        assert(m.deep_view() =~= names_map::<T>(ns));
                    }
                },
                _ => {
                    proof {
                        assert(!is_text(lm[i as int]));
                    }
                    return Err(DecodeError::BadElement);
                },
            }
            i = i + 1;
        }
        proof {
            assert(lm.take(items@.len() as int) =~= lm);
        }
        Ok(m)
    }

    /// Builds the collection from a mapping of name to detailed value.
    fn from_record(entries: Vec<(String, Value)>) -> (r: Result<Self, DecodeError>)
        ensures
            match r {
                Ok(m) => m.wf() && decode_entries::<T>(record_model(entries@)) == Ok::<Map<Seq<char>, T::V>, DecodeErrorModel>(
                    m.deep_view(),
                ),
                Err(e) => decode_entries::<T>(record_model(entries@)) == Err::<
                    Map<Seq<char>, T::V>,
                    _,
                >(e.deep_view()),
            },
    {
        let ghost rm = record_model(entries@);
        let mut m = NamedMap::<T>::new();
        proof {
            assert(rm.take(0) =~= Seq::<(Seq<char>, ValueModel)>::empty());
            assert(m.deep_view() =~= Map::<Seq<char>, T::V>::empty());
        }
        let mut i: usize = 0;
        while i < entries.len()
            invariant
                i <= entries@.len(),
                rm == record_model(entries@),
                rm.len() == entries@.len(),
                m.wf(),
                decode_entries::<T>(rm.take(i as int)) == Ok::<Map<Seq<char>, T::V>, DecodeErrorModel>(m.deep_view()),
            decreases entries@.len() - i,
        {
            let decoded = T::from_value(&entries[i].1);
            match decoded {
                Some(t) => {
                    let name = entries[i].0.clone();
                    let ghost mv0 = m@;
                    m.insert(name, t);
                    proof {
                        lemma_map_values_insert(mv0, entries@[i as int].0@, t, |x: T| x.deep_view());
                        assert(rm.take(i + 1 as int).drop_last() =~= rm.take(i as int));
                        assert(rm.take(i + 1 as int).last() == rm[i as int]);
                        assert(rm[i as int].1 == entries@[i as int].1.deep_view());
                        assert(decode_entries::<T>(rm.take(i + 1 as int)) == Ok::<Map<Seq<char>, T::V>, DecodeErrorModel>(m.deep_view()));
                    }
                },
                None => {
                    proof {
                        assert(rm[i as int].1 == entries@[i as int].1.deep_view());
                        lemma_decode_entries_err::<T>(rm, i as int);
                    }
                    return Err(DecodeError::BadEntry(entries[i].0.clone()));
                },
            }
            i = i + 1;
        }
        proof {
            assert(rm.take(entries@.len() as int) =~= rm);
        }
        Ok(m)
    }

    /// Decodes a structured value into a collection, accepting either the
    /// sequence-of-names shape or the mapping shape.
    ///
    /// The result is exactly what [`decode_value`] prescribes for the shape
    /// of the input: all-or-nothing, no partial collection on failure.
    pub fn from_json_value(value: Value) -> (r: Result<Self, DecodeError>)
        ensures
            match r {
                Ok(m) => m.wf() && decode_value::<T>(value.deep_view()) == Ok::<Map<Seq<char>, T::V>, DecodeErrorModel>(m.deep_view()),
                Err(e) => decode_value::<T>(value.deep_view()) == Err::<
                    Map<Seq<char>, T::V>,
                    _,
                >(e.deep_view()),
            },
    {
        match value {
            Value::Record(entries) => Self::from_record(entries),
            Value::List(items) => Self::from_list(items),
            _ => Err(DecodeError::WrongShape),
        }
    }
}

impl<T: ToValue> NamedMap<T> {
    /// Encodes the collection to structured form: always the mapping shape,
    /// never the sequence shape, whichever shape it was decoded from.
    pub fn to_json_value(&self) -> (r: Value)
        ensures
            r.deep_view() == encode_entries::<T>(self.deep_entries()),
            r.deep_view() is Record,
    {
        let inner = self.as_inner();
        let mut out: Vec<(String, Value)> = Vec::new();
        let mut i: usize = 0;
        while i < inner.len()
            invariant
                i <= inner@.len(),
                inner@ == self.entries_seq(),
                out@.len() == i,
                forall|a: int|
                    0 <= a < i ==> (#[trigger] out@[a]).0@ == inner@[a].0@ && out@[a].1.deep_view()
                        == T::to_value_spec(inner@[a].1.deep_view()),
            decreases inner@.len() - i,
        {
            let name = inner[i].0.clone();
            let v = inner[i].1.to_value();
            out.push((name, v));
            i = i + 1;
        }
        let r = Value::Record(out);
        proof {
            let es = self.deep_entries();
            assert(r.deep_view()->Record_0 =~~= es.map_values(
                |e: (Seq<char>, T::V)| (e.0, T::to_value_spec(e.1)),
            ));
        }
        r
    }
}

} // verus!
