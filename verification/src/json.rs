//! JSON objects as one line of text.

use vstd::prelude::*;

use crate::outside::{json_string, json_text};
use crate::text::{decimal, joined, push_decimal, push_joined, push_signed, signed_decimal};

verus! {

/// A field: its key and the text of its value.
pub type Field = (Seq<char>, Seq<char>);

/// A field as text.
pub open spec fn field_text(field: Field) -> Seq<char> {
    "\""@ + field.0 + "\":"@ + field.1
}

/// Texts with commas between them.
pub open spec fn with_commas(items: Seq<Seq<char>>) -> Seq<char>
    decreases items.len(),
{
    if items.len() == 0 {
        Seq::empty()
    } else if items.len() == 1 {
        items[0]
    } else {
        with_commas(items.drop_last()) + ","@ + items.last()
    }
}

/// Fields, in order, as an object.
pub open spec fn object_text(fields: Seq<Field>) -> Seq<char> {
    "{"@ + with_commas(fields.map_values(|field: Field| field_text(field))) + "}"@
}

/// The texts of values as a list.
pub open spec fn list_text(items: Seq<Seq<char>>) -> Seq<char> {
    "["@ + with_commas(items) + "]"@
}

/// Numbers as a list.
pub open spec fn number_list_text(numbers: Seq<u32>) -> Seq<char> {
    "["@ + joined(numbers, ","@) + "]"@
}

/// An object of one field is the field in braces: the key in quotes, a colon
/// and the value. Each further field goes behind the others, with a comma
/// between, before the brace that closes the object.
pub proof fn object_grows_field_by_field(fields: Seq<Field>, key: Seq<char>, value: Seq<char>)
    ensures
        object_text(Seq::empty()) == seq!['{', '}'],
        object_text(seq![(key, value)]) == seq!['{', '"'] + key + seq!['"', ':'] + value + seq!['}'],
        fields.len() > 0 ==> object_text(fields.push((key, value))) == object_text(
            fields,
        ).drop_last() + seq![',', '"'] + key + seq!['"', ':'] + value + seq!['}'],
{
    reveal_strlit("{");
    reveal_strlit("}");
    reveal_strlit("\"");
    reveal_strlit("\":");
    reveal_strlit(",");
    let view = |field: Field| field_text(field);
    let none = Seq::<Field>::empty();
    assert(none.map_values(view) =~= Seq::<Seq<char>>::empty());
    assert(object_text(none) =~= seq!['{', '}']);
    let one = seq![(key, value)];
    assert(one.map_values(view) =~= seq![field_text((key, value))]);
    assert(object_text(one) =~= seq!['{', '"'] + key + seq!['"', ':'] + value + seq!['}']);
    if fields.len() > 0 {
        let texts = fields.map_values(view);
        let longer = fields.push((key, value)).map_values(view);
        assert(longer.drop_last() =~= texts);
        assert(longer.last() == field_text((key, value)));
        assert(object_text(fields).drop_last() =~= "{"@ + with_commas(texts));
        assert(object_text(fields.push((key, value))) =~= object_text(fields).drop_last() + seq![
            ',',
            '"',
        ] + key + seq!['"', ':'] + value + seq!['}']);
    }
}

/// A list of one value is the value in brackets; each further value goes behind
/// the others, with a comma between.
pub proof fn list_grows_value_by_value(items: Seq<Seq<char>>, value: Seq<char>)
    ensures
        list_text(Seq::empty()) == seq!['[', ']'],
        list_text(seq![value]) == seq!['['] + value + seq![']'],
        items.len() > 0 ==> list_text(items.push(value)) == list_text(items).drop_last() + seq![
            ',',
        ] + value + seq![']'],
{
    reveal_strlit("[");
    reveal_strlit("]");
    reveal_strlit(",");
    assert(list_text(Seq::empty()) =~= seq!['[', ']']);
    assert(list_text(seq![value]) =~= seq!['['] + value + seq![']']);
    if items.len() > 0 {
        assert(items.push(value).drop_last() =~= items);
        assert(list_text(items).drop_last() =~= "["@ + with_commas(items));
        assert(list_text(items.push(value)) =~= list_text(items).drop_last() + seq![',']
            + value + seq![']']);
    }
}

/// A list of numbers is the list of their numerals.
pub proof fn numbers_are_listed_as_numerals(numbers: Seq<u32>)
    ensures
        number_list_text(numbers) == list_text(
            numbers.map_values(|number: u32| decimal(number as nat)),
        ),
{
    lemma_numerals_with_commas(numbers);
}

proof fn lemma_numerals_with_commas(numbers: Seq<u32>)
    ensures
        joined(numbers, ","@) == with_commas(
            numbers.map_values(|number: u32| decimal(number as nat)),
        ),
    decreases numbers.len(),
{
    let view = |number: u32| decimal(number as nat);
    if numbers.len() > 1 {
        lemma_numerals_with_commas(numbers.drop_last());
        assert(numbers.map_values(view).drop_last() =~= numbers.drop_last().map_values(view));
    }
}

/// An object that is being written.
pub struct JsonObject {
    fields: Vec<(String, String)>,
}

impl View for JsonObject {
    type V = Seq<Field>;

    closed spec fn view(&self) -> Seq<Field> {
        self.fields@.map_values(|field: (String, String)| (field.0@, field.1@))
    }
}

impl JsonObject {
    /// An object with no fields.
    pub fn new() -> (object: JsonObject)
        ensures
            object@ == Seq::<Field>::empty(),
    {
        let object: JsonObject = JsonObject { fields: Vec::new() };
        assert(object@ =~= Seq::<Field>::empty());
        object
    }

    /// Puts a field behind the others, of which `value` is the text.
    pub fn raw(&mut self, key: &str, value: String)
        ensures
            final(self)@ == old(self)@.push((key@, value@)),
    {
        self.fields.push((key.to_string(), value));
        assert(self@ =~= old(self)@.push((key@, value@)));
    }

    /// Puts a number behind the other fields.
    pub fn number(&mut self, key: &str, value: u64)
        ensures
            final(self)@ == old(self)@.push((key@, decimal(value as nat))),
    {
        let mut text: String = String::new();
        push_decimal(&mut text, value);
        assert(text@ =~= decimal(value as nat));
        self.raw(key, text);
    }

    /// Puts a number that may be negative behind the other fields.
    pub fn signed(&mut self, key: &str, value: i64)
        ensures
            final(self)@ == old(self)@.push((key@, signed_decimal(value as int))),
    {
        let mut text: String = String::new();
        push_signed(&mut text, value);
        assert(text@ =~= signed_decimal(value as int));
        self.raw(key, text);
    }

    /// Puts a text behind the other fields.
    pub fn text(&mut self, key: &str, value: &str)
        ensures
            final(self)@ == old(self)@.push((key@, json_text(value@))),
    {
        self.raw(key, json_string(value));
    }

    /// Puts a list of numbers behind the other fields.
    pub fn numbers(&mut self, key: &str, value: &[u32])
        ensures
            final(self)@ == old(self)@.push((key@, number_list_text(value@))),
    {
        let mut text: String = "[".to_string();
        push_joined(&mut text, value, ",");
        text.append("]");
        self.raw(key, text);
    }

    /// The object as text.
    pub fn line(&self) -> (text: String)
        ensures
            text@ == object_text(self@),
    {
        let ghost texts = self@.map_values(|field: Field| field_text(field));
        let mut text: String = "{".to_string();
        assert(text@ =~= "{"@ + with_commas(texts.take(0)));
        for i in 0..self.fields.len()
            invariant
                texts == self@.map_values(|field: Field| field_text(field)),
                texts.len() == self.fields@.len(),
                text@ == "{"@ + with_commas(texts.take(i as int)),
        {
            proof {
                assert(texts.take(i + 1).drop_last() =~= texts.take(i as int));
                assert(texts.take(i + 1).last() == texts[i as int]);
            }
            if i > 0 {
                text.append(",");
            }
            text.append("\"");
            text.append(self.fields[i].0.as_str());
            text.append("\":");
            text.append(self.fields[i].1.as_str());
            assert(text@ =~= "{"@ + with_commas(texts.take(i + 1)));
        }
        assert(texts.take(texts.len() as int) =~= texts);
        text.append("}");
        text
    }
}

/// The texts of values as a list.
pub fn list(items: &Vec<String>) -> (text: String)
    ensures
        text@ == list_text(items@.map_values(|item: String| item@)),
{
    let ghost texts = items@.map_values(|item: String| item@);
    let mut text: String = "[".to_string();
    assert(text@ =~= "["@ + with_commas(texts.take(0)));
    for i in 0..items.len()
        invariant
            texts == items@.map_values(|item: String| item@),
            text@ == "["@ + with_commas(texts.take(i as int)),
    {
        proof {
            assert(texts.take(i + 1).drop_last() =~= texts.take(i as int));
            assert(texts.take(i + 1).last() == texts[i as int]);
        }
        if i > 0 {
            text.append(",");
        }
        text.append(items[i].as_str());
        assert(text@ =~= "["@ + with_commas(texts.take(i + 1)));
    }
    assert(texts.take(texts.len() as int) =~= texts);
    text.append("]");
    text
}

} // verus!
