//! A small element type bundled with the library.
//!
//! `Item` implements every capability the decoder can use — placeholder
//! construction from a bare name and both halves of the structural codec —
//! and serves as the reference example for implementers of those traits.

use vstd::prelude::*;

use crate::adaptive::{FromName, FromValue, ToValue};
use crate::laws::codec_inverts;
use crate::named_map::views_map;
use crate::value::{record_model, Value, ValueModel};

verus! {

/// A named item's payload: a descriptive value and a flag.
#[derive(Debug, Clone, PartialEq, Eq)]
pub struct Item {
    pub value: String,
    pub optional: bool,
}

/// The shape of an `Item`.
pub struct ItemModel {
    pub value: Seq<char>,
    pub optional: bool,
}

impl DeepView for Item {
    type V = ItemModel;

    open spec fn deep_view(&self) -> ItemModel {
        ItemModel { value: self.value@, optional: self.optional }
    }
}

impl FromName for Item {
    open spec fn from_name_spec(name: Seq<char>) -> ItemModel {
        ItemModel { value: name, optional: false }
    }

    /// The placeholder for a bare name: the name itself, with the flag off.
    fn from_name(name: &str) -> Self {
        Item { value: name.to_owned(), optional: false }
    }
}

/// The names of an item's two fields are distinct.
proof fn lemma_field_keys_differ()
    ensures
        "value"@ != "optional"@,
{
    reveal_strlit("value");
    reveal_strlit("optional");
    assert("value"@.len() == 5);
    assert("optional"@.len() == 8);
}

/// The field map of a two-entry record, written out.
proof fn lemma_two_entry_fields(entries: Seq<(Seq<char>, ValueModel)>)
    requires
        entries.len() == 2,
    ensures
        views_map(entries) == Map::<Seq<char>, ValueModel>::empty().insert(
            entries[0].0,
            entries[0].1,
        ).insert(entries[1].0, entries[1].1),
{
    let dl = entries.drop_last();
    assert(dl.len() == 1);
    assert(dl.drop_last() =~= Seq::<(Seq<char>, ValueModel)>::empty());
    assert(views_map(dl.drop_last()) == Map::<Seq<char>, ValueModel>::empty());
    assert(dl.last() == entries[0]);
    assert(views_map(dl) == Map::<Seq<char>, ValueModel>::empty().insert(
        entries[0].0,
        entries[0].1,
    ));
    assert(entries.last() == entries[1]);
}

impl ToValue for Item {
    /// An item encodes as a two-entry mapping holding its fields in
    /// canonical order.
    open spec fn to_value_spec(t: ItemModel) -> ValueModel {
        ValueModel::Record(
            seq![
                ("value"@, ValueModel::Text(t.value)),
                ("optional"@, ValueModel::Bool(t.optional)),
            ],
        )
    }

    fn to_value(&self) -> Value {
        let mut fields: Vec<(String, Value)> = Vec::new();
        fields.push(("value".to_owned(), Value::Text(self.value.clone())));
        fields.push(("optional".to_owned(), Value::Bool(self.optional)));
        let ghost fs = fields@;
        let r = Value::Record(fields);
        proof {
            assert(record_model(fs).len() == 2);
            assert(record_model(fs)[0] == ("value"@, ValueModel::Text(self.value@)));
            assert(record_model(fs)[1] == ("optional"@, ValueModel::Bool(self.optional)));
            assert(record_model(fs) =~~= Self::to_value_spec(self.deep_view())->Record_0);
        }
        r
    }
}

impl FromValue for Item {
    /// An item decodes from a two-entry mapping holding its two fields,
    /// looked up by name, in either order; missing, repeated, extra or
    /// ill-typed fields are rejected.
    open spec fn from_value_spec(v: ValueModel) -> Option<ItemModel> {
        match v {
            ValueModel::Record(entries) => {
                let fields = views_map(entries);
                if entries.len() == 2 && fields.contains_key("value"@) && fields["value"@] is Text
                    && fields.contains_key("optional"@) && fields["optional"@] is Bool {
                    Some(
                        ItemModel {
                            value: fields["value"@]->Text_0,
                            optional: fields["optional"@]->Bool_0,
                        },
                    )
                } else {
                    None
                }
            },
            _ => None,
        }
    }

    fn from_value(v: &Value) -> Option<Self> {
        match v {
            Value::Record(entries) => {
                if entries.len() == 2 {
                    let key_value: String = ("value").to_owned();
                    let key_optional: String = ("optional").to_owned();
                    let ghost rm = record_model(entries@);
                    proof {
                        lemma_field_keys_differ();
                        lemma_two_entry_fields(rm);
                        assert(rm[0] == (entries@[0].0@, entries@[0].1.deep_view()));
                        assert(rm[1] == (entries@[1].0@, entries@[1].1.deep_view()));
                    }
                    if entries[0].0 == key_value && entries[1].0 == key_optional {
                        match (&entries[0].1, &entries[1].1) {
                            (Value::Text(s), Value::Bool(b)) => Some(
                                Item { value: s.clone(), optional: *b },
                            ),
                            _ => None,
                        }
                    } else if entries[0].0 == key_optional && entries[1].0 == key_value {
                        match (&entries[1].1, &entries[0].1) {
                            (Value::Text(s), Value::Bool(b)) => Some(
                                Item { value: s.clone(), optional: *b },
                            ),
                            _ => None,
                        }
                    } else {
                        proof {
                            let fields = views_map(rm);
                            if fields.contains_key("value"@) && fields.contains_key(
                                "optional"@,
                            ) {
                                assert(fields.dom() =~= Set::<Seq<char>>::empty().insert(
                                    rm[0].0,
                                ).insert(rm[1].0));
                                assert(false);
                            }
                        }
                        None
                    }
                } else {
                    proof {
                        assert(record_model(entries@).len() == entries@.len());
                    }
                    None
                }
            },
            _ => None,
        }
    }
}

/// The bundled codec inverts: decoding an encoded item yields it back, so
/// the round-trip laws apply to collections of items.
pub proof fn lemma_item_codec_inverts()
    ensures
        codec_inverts::<Item>(),
{
    assert forall|tv: ItemModel| #[trigger] <Item as FromValue>::from_value_spec(
        <Item as ToValue>::to_value_spec(tv),
    ) == Some(tv) by {
        let enc = <Item as ToValue>::to_value_spec(tv);
        let entries = enc->Record_0;
        assert(entries.len() == 2);
        assert(entries[0] == ("value"@, ValueModel::Text(tv.value)));
        assert(entries[1] == ("optional"@, ValueModel::Bool(tv.optional)));
        lemma_field_keys_differ();
        lemma_two_entry_fields(entries);
    }
}

} // verus!
