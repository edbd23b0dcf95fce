//! JSON documents.

use crate::order::{law_sorted_without_repetition, sort_and_dedup};
use crate::text::{precedes, text_eq, texts};
use vstd::prelude::*;

verus! {

/// A number of a JSON document. A floating-point number is given by the text that it prints as.
pub enum NumberView {
    PosInt(u64),
    NegInt(i64),
    Float(Seq<char>),
}

/// The contents of a JSON document.
pub enum JsonView {
    Null,
    Bool(bool),
    Number(NumberView),
    String(Seq<char>),
    Array(Seq<JsonView>),
    Object(Map<Seq<char>, JsonView>),
}

impl JsonView {
    /// The value of the field `key`; only an object has fields.
    pub open spec fn get(self, key: Seq<char>) -> Option<JsonView> {
        match self {
            JsonView::Object(fields) => if fields.contains_key(key) {
                Some(fields[key])
            } else {
                None
            },
            _ => None,
        }
    }

    /// The field `inner` of the field `outer`.
    pub open spec fn get2(self, outer: Seq<char>, inner: Seq<char>) -> Option<JsonView> {
        match self.get(outer) {
            Some(value) => value.get(inner),
            None => None,
        }
    }

    /// The text, if this is one.
    pub open spec fn str(self) -> Option<Seq<char>> {
        match self {
            JsonView::String(text) => Some(text),
            _ => None,
        }
    }

    /// The number, if this is an integer of 64 bits without sign.
    pub open spec fn u64(self) -> Option<u64> {
        match self {
            JsonView::Number(NumberView::PosInt(n)) => Some(n),
            _ => None,
        }
    }

    /// The number, if this is an integer of 64 bits with sign.
    pub open spec fn i64(self) -> Option<i64> {
        match self {
            JsonView::Number(NumberView::PosInt(n)) => if n <= i64::MAX {
                Some(n as i64)
            } else {
                None
            },
            JsonView::Number(NumberView::NegInt(n)) => Some(n),
            _ => None,
        }
    }

    /// The items, if this is an array.
    pub open spec fn array(self) -> Option<Seq<JsonView>> {
        match self {
            JsonView::Array(items) => Some(items),
            _ => None,
        }
    }

    /// The fields, if this is an object.
    pub open spec fn object(self) -> Option<Map<Seq<char>, JsonView>> {
        match self {
            JsonView::Object(fields) => Some(fields),
            _ => None,
        }
    }

    /// The text of the field `key`, if it is a text.
    pub open spec fn str_at(self, key: Seq<char>) -> Option<Seq<char>> {
        match self.get(key) {
            Some(value) => value.str(),
            None => None,
        }
    }

    /// The text of the field `inner` of the field `outer`, if it is a text.
    pub open spec fn str_at2(self, outer: Seq<char>, inner: Seq<char>) -> Option<Seq<char>> {
        match self.get2(outer, inner) {
            Some(value) => value.str(),
            None => None,
        }
    }

    /// The items of the field `key`; none if it is no array.
    pub open spec fn items_at(self, key: Seq<char>) -> Seq<JsonView> {
        match self.get(key) {
            Some(JsonView::Array(items)) => items,
            _ => Seq::empty(),
        }
    }

    /// The number of the field `key`, if it is an integer of 64 bits without sign.
    pub open spec fn u64_at(self, key: Seq<char>) -> Option<u64> {
        match self.get(key) {
            Some(value) => value.u64(),
            None => None,
        }
    }

    /// The truth value of the field `key`; false if it is none.
    pub open spec fn bool_at(self, key: Seq<char>) -> bool {
        match self.get(key) {
            Some(JsonView::Bool(b)) => b,
            _ => false,
        }
    }
}

/// `option`, or `other` if it holds nothing.
pub open spec fn or_view<T>(option: Option<T>, other: Option<T>) -> Option<T> {
    match option {
        Some(value) => Some(value),
        None => other,
    }
}

/// The value that `option` holds, or `default`.
pub open spec fn or_default<T>(option: Option<T>, default: T) -> T {
    match option {
        Some(value) => value,
        None => default,
    }
}

/// The contents of an optional reference to a document.
pub open spec fn opt_view(option: Option<&Json>) -> Option<JsonView> {
    match option {
        Some(value) => Some(value@),
        None => None,
    }
}

/// The contents of an optional text.
pub open spec fn opt_text(option: Option<&str>) -> Option<Seq<char>> {
    match option {
        Some(text) => Some(text@),
        None => None,
    }
}

/// The contents of an optional text.
pub open spec fn opt_string(option: Option<String>) -> Option<Seq<char>> {
    match option {
        Some(text) => Some(text@),
        None => None,
    }
}

/// A document that is one text.
pub open spec fn json_str(text: Seq<char>) -> JsonView {
    JsonView::String(text)
}

/// A document that is one number.
pub open spec fn json_u64(n: u64) -> JsonView {
    JsonView::Number(NumberView::PosInt(n))
}

/// A document that is one number.
pub open spec fn json_i64(n: i64) -> JsonView {
    if n >= 0 {
        JsonView::Number(NumberView::PosInt(n as u64))
    } else {
        JsonView::Number(NumberView::NegInt(n))
    }
}

/// A document that is one text, or null.
pub open spec fn json_opt_str(text: Option<Seq<char>>) -> JsonView {
    match text {
        Some(text) => JsonView::String(text),
        None => JsonView::Null,
    }
}

/// No fields at all.
pub open spec fn no_fields() -> Map<Seq<char>, JsonView> {
    Map::empty()
}

/// Whether serde_json prints one of its floating-point numbers as `text`.
pub uninterp spec fn float_text(text: Seq<char>) -> bool;

#[derive(Debug)]
enum NumberRepr {
    PosInt(u64),
    NegInt(i64),
    Float(String),
}

/// A number of a JSON document: an integer without sign, a negative integer, or a floating-point
/// number, which is kept as text.
#[derive(Debug)]
pub struct JsonNumber {
    repr: NumberRepr,
}

impl View for JsonNumber {
    type V = NumberView;

    closed spec fn view(&self) -> NumberView {
        match self.repr {
            NumberRepr::PosInt(n) => NumberView::PosInt(n),
            NumberRepr::NegInt(n) => NumberView::NegInt(n),
            NumberRepr::Float(text) => NumberView::Float(text@),
        }
    }
}

impl JsonNumber {
    #[verifier::type_invariant]
    spec fn well_formed(self) -> bool {
        match self.repr {
            NumberRepr::PosInt(_) => true,
            NumberRepr::NegInt(n) => n < 0,
            NumberRepr::Float(text) => float_text(text@),
        }
    }

    /// An integer without sign.
    pub fn from_u64(n: u64) -> (number: JsonNumber)
        ensures
            number@ == NumberView::PosInt(n),
    {
        JsonNumber { repr: NumberRepr::PosInt(n) }
    }

    /// An integer with sign.
    pub fn from_i64(n: i64) -> (number: JsonNumber)
        ensures
            JsonView::Number(number@) == json_i64(n),
    {
        if n >= 0 {
            JsonNumber { repr: NumberRepr::PosInt(n as u64) }
        } else {
            JsonNumber { repr: NumberRepr::NegInt(n) }
        }
    }

    /// The integer, if it is one without sign.
    pub fn as_u64(&self) -> (n: Option<u64>)
        ensures
            n == JsonView::Number(self@).u64(),
    {
        match &self.repr {
            NumberRepr::PosInt(n) => Some(*n),
            _ => None,
        }
    }

    /// The integer, if it is one that fits 64 bits with sign.
    pub fn as_i64(&self) -> (n: Option<i64>)
        ensures
            n == JsonView::Number(self@).i64(),
    {
        match &self.repr {
            NumberRepr::PosInt(n) => if *n <= i64::MAX as u64 {
                Some(*n as i64)
            } else {
                None
            },
            NumberRepr::NegInt(n) => Some(*n),
            _ => None,
        }
    }
}

impl Clone for JsonNumber {
    fn clone(&self) -> (copy: Self)
        ensures
            copy@ == self@,
    {
        proof {
            use_type_invariant(self);
        }
        match &self.repr {
            NumberRepr::PosInt(n) => JsonNumber { repr: NumberRepr::PosInt(*n) },
            NumberRepr::NegInt(n) => JsonNumber { repr: NumberRepr::NegInt(*n) },
            NumberRepr::Float(text) => JsonNumber { repr: NumberRepr::Float(text.clone()) },
        }
    }
}

/// A JSON document.
#[derive(Debug)]
pub enum Json {
    Null,
    Bool(bool),
    Number(JsonNumber),
    String(String),
    Array(Vec<Json>),
    Object(JsonMap),
}

/// The fields of a JSON object. Where a key occurs more than once, its last entry counts.
#[derive(Debug)]
pub struct JsonMap {
    pub entries: Vec<(String, Json)>,
}

/// The contents of a list of documents.
pub open spec fn items_view(items: Seq<Json>) -> Seq<JsonView>
    decreases items,
{
    Seq::new(
        items.len(),
        |i: int|
            if 0 <= i < items.len() {
                items[i].view()
            } else {
                JsonView::Null
            },
    )
}

/// The fields that a list of entries gives.
pub open spec fn entries_view(entries: Seq<(String, Json)>) -> Map<Seq<char>, JsonView>
    decreases entries,
{
    if entries.len() == 0 {
        Map::empty()
    } else {
        entries_view(entries.drop_last()).insert(entries.last().0@, entries.last().1.view())
    }
}

/// The field that a lookup finds.
pub open spec fn field(fields: Map<Seq<char>, JsonView>, key: Seq<char>) -> Option<JsonView> {
    if fields.contains_key(key) {
        Some(fields[key])
    } else {
        None
    }
}

pub(crate) proof fn lemma_items_push(items: Seq<Json>, item: Json)
    ensures
        items_view(items.push(item)) == items_view(items).push(item@),
{
    assert(items_view(items.push(item)) =~= items_view(items).push(item@));
}

pub(crate) proof fn lemma_items_take(items: Seq<Json>, i: int)
    requires
        0 <= i < items.len(),
    ensures
        items_view(items).take(i + 1).drop_last() == items_view(items).take(i),
        items_view(items).take(i + 1).last() == items[i]@,
        items_view(items).len() == items.len(),
        items_view(items)[i] == items[i]@,
{
    assert(items_view(items).take(i + 1).drop_last() =~= items_view(items).take(i));
}

pub(crate) proof fn lemma_items_whole(items: Seq<Json>)
    ensures
        items_view(items).take(0) == Seq::<JsonView>::empty(),
        items_view(items).take(items.len() as int) == items_view(items),
{
    assert(items_view(items).take(0) =~= Seq::<JsonView>::empty());
    assert(items_view(items).take(items.len() as int) =~= items_view(items));
}

proof fn lemma_entries_push(entries: Seq<(String, Json)>, entry: (String, Json))
    ensures
        entries_view(entries.push(entry)) == entries_view(entries).insert(entry.0@, entry.1@),
{
    assert(entries.push(entry).drop_last() =~= entries);
}

proof fn lemma_entries_remove(entries: Seq<(String, Json)>, at: int)
    requires
        0 <= at < entries.len(),
    ensures
        entries_view(entries.remove(at)).remove(entries[at].0@) == entries_view(entries).remove(
            entries[at].0@,
        ),
    decreases entries.len(),
{
    let key = entries[at].0@;
    if at == entries.len() - 1 {
        assert(entries.remove(at) =~= entries.drop_last());
        assert(entries_view(entries.drop_last()).insert(key, entries.last().1@).remove(key)
            =~= entries_view(entries.drop_last()).remove(key));
    } else {
        let short = entries.drop_last();
        lemma_entries_remove(short, at);
        assert(entries.remove(at).drop_last() =~= short.remove(at));
        assert(entries.remove(at).last() == entries.last());
        assert(short[at] == entries[at]);
        let last = entries.last();
        assert(entries_view(entries.remove(at)) == entries_view(short.remove(at)).insert(last.0@, last.1@));
        assert(entries_view(entries) == entries_view(short).insert(last.0@, last.1@));
        if last.0@ == key {
            assert(entries_view(entries.remove(at)).remove(key) =~= entries_view(short.remove(at)).remove(key));
            assert(entries_view(entries).remove(key) =~= entries_view(short).remove(key));
        } else {
            assert(entries_view(entries.remove(at)).remove(key)
                =~= entries_view(short.remove(at)).remove(key).insert(last.0@, last.1@));
            assert(entries_view(entries).remove(key)
                =~= entries_view(short).remove(key).insert(last.0@, last.1@));
        }
    }
}

impl JsonMap {
    /// The fields, by key.
    pub open spec fn view(&self) -> Map<Seq<char>, JsonView> {
        entries_view(self.entries@)
    }

    /// No fields.
    pub fn new() -> (map: JsonMap)
        ensures
            map@ == no_fields(),
    {
        JsonMap { entries: Vec::new() }
    }

    /// The position of the last entry for `key`; the number of entries if there is none.
    fn position(&self, key: &str) -> (at: usize)
        ensures
            at <= self.entries@.len(),
            at < self.entries@.len() ==> {
                &&& self.entries@[at as int].0@ == key@
                &&& field(self@, key@) == Some(self.entries@[at as int].1@)
            },
            at == self.entries@.len() ==> field(self@, key@) is None,
    {
        let n = self.entries.len();
        let mut i = n;
        assert(self.entries@.take(n as int) =~= self.entries@);
        while i > 0
            invariant
                i <= n,
                n == self.entries@.len(),
                field(self@, key@) == field(entries_view(self.entries@.take(i as int)), key@),
            decreases i,
        {
            assert(self.entries@.take(i as int).drop_last() =~= self.entries@.take(i - 1));
            assert(self.entries@.take(i as int).last() == self.entries@[i - 1]);
            if text_eq(self.entries[i - 1].0.as_str(), key) {
                return i - 1;
            }
            i = i - 1;
        }
        n
    }

    /// The field `key`, if there is one.
    pub fn get(&self, key: &str) -> (value: Option<&Json>)
        ensures
            opt_view(value) == field(self@, key@),
    {
        let at = self.position(key);
        if at < self.entries.len() {
            Some(&self.entries[at].1)
        } else {
            None
        }
    }

    /// Takes the field `key` away, if there is one.
    pub fn remove(&mut self, key: &str)
        ensures
            final(self)@ == old(self)@.remove(key@),
    {
        let mut at = self.position(key);
        while at < self.entries.len()
            invariant
                at <= self.entries@.len(),
                at < self.entries@.len() ==> self.entries@[at as int].0@ == key@,
                at == self.entries@.len() ==> field(self@, key@) is None,
                self@.remove(key@) == old(self)@.remove(key@),
            decreases self.entries@.len(),
        {
            proof {
                lemma_entries_remove(self.entries@, at as int);
            }
            self.entries.remove(at);
            at = self.position(key);
        }
        assert(self@.remove(key@) =~= self@);
    }

    /// Gives the field `key` a value, in place of the one it had.
    pub fn insert(&mut self, key: &str, value: Json)
        ensures
            final(self)@ == old(self)@.insert(key@, value@),
    {
        self.remove(key);
        let name = key.to_owned();
        let ghost before = self.entries@;
        self.entries.push((name, value));
        proof {
            lemma_entries_push(before, (name, value));
            assert(old(self)@.remove(key@).insert(key@, value@) =~= old(self)@.insert(key@, value@));
        }
    }
}

impl JsonMap {
    /// Gives every field of `other` its value there, in place of the one it had.
    pub fn extend(&mut self, other: JsonMap)
        ensures
            final(self)@ == old(self)@.union_prefer_right(other@),
    {
        let ghost whole = other.entries@;
        assert(old(self)@.union_prefer_right(entries_view(whole.take(0))) =~= old(self)@);
        for entry in it: other.entries
            invariant
                it.seq() == whole,
                self@ == old(self)@.union_prefer_right(entries_view(whole.take(it.index() as int))),
        {
            let (key, value) = entry;
            self.insert(key.as_str(), value);
            proof {
                let i = it.index() as int;
                let next = whole.take(i + 1);
                assert(next.drop_last() =~= whole.take(i));
                assert(next.last() == entry);
                assert(self@ =~= old(self)@.union_prefer_right(entries_view(next)));
            }
        }
        assert(whole.take(whole.len() as int) =~= whole);
    }
}

/// The contents of a list of entries.
pub open spec fn entry_views(entries: Seq<(String, Json)>) -> Seq<(Seq<char>, JsonView)> {
    entries.map_values(|entry: (String, Json)| (entry.0@, entry.1@))
}

/// Whether `list` is the fields of an object in the order of their keys.
pub open spec fn is_listing(
    list: Seq<(Seq<char>, JsonView)>,
    fields: Map<Seq<char>, JsonView>,
) -> bool {
    &&& forall|i: int, j: int|
        0 <= i < j < list.len() ==> precedes((#[trigger] list[i]).0, (#[trigger] list[j]).0)
    &&& forall|i: int|
        0 <= i < list.len() ==> field(fields, (#[trigger] list[i]).0) == Some(list[i].1)
    &&& forall|key: Seq<char>| #[trigger]
        fields.contains_key(key) ==> exists|i: int| 0 <= i < list.len() && (#[trigger] list[i]).0 == key
}

/// The keys of entries.
spec fn entry_keys(entries: Seq<(String, Json)>) -> Seq<Seq<char>> {
    entries.map_values(|entry: (String, Json)| entry.0@)
}

proof fn lemma_entries_dom(entries: Seq<(String, Json)>)
    ensures
        forall|key: Seq<char>| #[trigger]
            entries_view(entries).contains_key(key) <==> entry_keys(entries).contains(key),
        entries_view(entries).dom().finite(),
    decreases entries.len(),
{
    if entries.len() > 0 {
        let short = entries.drop_last();
        lemma_entries_dom(short);
        assert forall|key: Seq<char>| #[trigger]
            entries_view(entries).contains_key(key) <==> entry_keys(entries).contains(key) by {
            if entry_keys(short).contains(key) {
                let i = choose|i: int| 0 <= i < short.len() && entry_keys(short)[i] == key;
                assert(entry_keys(entries)[i] == key);
            }
            if key == entries.last().0@ {
                assert(entry_keys(entries)[entries.len() - 1] == key);
            }
            if entry_keys(entries).contains(key) {
                let i = choose|i: int| 0 <= i < entries.len() && entry_keys(entries)[i] == key;
                if i < short.len() {
                    assert(entry_keys(short)[i] == key);
                }
            }
        }
    }
}

impl JsonMap {
    /// The fields have finitely many keys.
    pub(crate) proof fn lemma_finite(&self)
        ensures
            self@.dom().finite(),
    {
        lemma_entries_dom(self.entries@);
    }

    /// The fields in the order of their keys.
    pub fn listing(&self) -> (list: Vec<(String, Json)>)
        ensures
            is_listing(entry_views(list@), self@),
    {
        let mut keys: Vec<String> = Vec::new();
        let mut i: usize = 0;
        while i < self.entries.len()
            invariant
                i <= self.entries@.len(),
                texts(keys@) == entry_keys(self.entries@).take(i as int),
            decreases self.entries@.len() - i,
        {
            let ghost before = keys@;
            let key = self.entries[i].0.clone();
            keys.push(key);
            assert(texts(keys@) =~= texts(before).push(key@));
            assert(entry_keys(self.entries@).take(i + 1) =~= entry_keys(self.entries@).take(
                i as int,
            ).push(key@));
            i = i + 1;
        }
        assert(texts(keys@) =~= entry_keys(self.entries@));
        let sorted = sort_and_dedup(&keys);
        proof {
            law_sorted_without_repetition(texts(keys@));
            lemma_entries_dom(self.entries@);
            assert forall|j: int| 0 <= j < sorted@.len() implies self@.contains_key(
                #[trigger] sorted@[j]@,
            ) by {
                assert(texts(sorted@)[j] == sorted@[j]@);
                assert(texts(sorted@).contains(sorted@[j]@));
            }
        }
        let mut list: Vec<(String, Json)> = Vec::new();
        let mut i: usize = 0;
        while i < sorted.len()
            invariant
                i <= sorted@.len(),
                list@.len() == i,
                forall|j: int| 0 <= j < sorted@.len() ==> self@.contains_key(#[trigger] sorted@[j]@),
                forall|j: int|
                    0 <= j < i ==> (#[trigger] list@[j]).0@ == sorted@[j]@ && field(
                        self@,
                        list@[j].0@,
                    ) == Some(list@[j].1@),
            decreases sorted@.len() - i,
        {
            let key = sorted[i].clone();
            assert(self@.contains_key(sorted@[i as int]@));
            if let Some(value) = self.get(key.as_str()) {
                list.push((key, value.clone()));
            }
            i = i + 1;
        }
        proof {
            let views = entry_views(list@);
            let names = texts(sorted@);
            assert forall|j: int| 0 <= j < list@.len() implies (#[trigger] views[j]).0 == names[j] by {
                assert(list@[j].0@ == sorted@[j]@);
            }
            assert forall|j: int| 0 <= j < views.len() implies field(self@, (#[trigger] views[j]).0)
                == Some(views[j].1) by {
                assert(field(self@, list@[j].0@) == Some(list@[j].1@));
            }
            assert forall|key: Seq<char>| #[trigger] self@.contains_key(key) implies exists|j: int|
                0 <= j < views.len() && (#[trigger] views[j]).0 == key by {
                assert(names.contains(key));
                let j = choose|j: int| 0 <= j < names.len() && names[j] == key;
                assert(views[j].0 == key);
            }
        }
        list
    }
}

impl Clone for JsonMap {
    fn clone(&self) -> (copy: Self)
        ensures
            copy@ == self@,
        decreases self,
    {
        let mut entries: Vec<(String, Json)> = Vec::new();
        let n = self.entries.len();
        let mut i: usize = 0;
        while i < n
            invariant
                i <= n,
                n == self.entries@.len(),
                entries_view(entries@) == entries_view(self.entries@.take(i as int)),
            decreases n - i,
        {
            let ghost before = entries@;
            let key = self.entries[i].0.clone();
            let value = self.entries[i].1.clone();
            entries.push((key, value));
            proof {
                lemma_entries_push(before, (key, value));
                assert(self.entries@.take(i + 1).drop_last() =~= self.entries@.take(i as int));
            }
            i = i + 1;
        }
        assert(self.entries@.take(n as int) =~= self.entries@);
        JsonMap { entries }
    }
}

impl Clone for Json {
    fn clone(&self) -> (copy: Self)
        ensures
            copy@ == self@,
        decreases self,
    {
        match self {
            Json::Null => Json::Null,
            Json::Bool(b) => Json::Bool(*b),
            Json::Number(n) => Json::Number(n.clone()),
            Json::String(text) => Json::String(text.clone()),
            Json::Array(items) => Json::Array(copy_items(items)),
            Json::Object(map) => Json::Object(map.clone()),
        }
    }
}

/// A copy of a list of documents.
pub fn copy_items(items: &Vec<Json>) -> (copy: Vec<Json>)
    ensures
        items_view(copy@) == items_view(items@),
    decreases items,
{
    let mut copy: Vec<Json> = Vec::new();
    let n = items.len();
    let mut i: usize = 0;
    while i < n
        invariant
            i <= n,
            n == items@.len(),
            copy@.len() == i,
            forall|j: int| 0 <= j < i ==> (#[trigger] copy@[j])@ == items@[j]@,
        decreases n - i,
    {
        let item = items[i].clone();
        copy.push(item);
        i = i + 1;
    }
    assert(items_view(copy@) =~= items_view(items@));
    copy
}

impl Json {
    /// The contents of the document.
    pub open spec fn view(&self) -> JsonView
        decreases self,
    {
        match self {
            Json::Null => JsonView::Null,
            Json::Bool(b) => JsonView::Bool(*b),
            Json::Number(n) => JsonView::Number(n@),
            Json::String(text) => JsonView::String(text@),
            Json::Array(items) => JsonView::Array(items_view(items@)),
            Json::Object(map) => JsonView::Object(entries_view(map.entries@)),
        }
    }

    /// A document that is one text.
    pub fn text(text: &str) -> (json: Json)
        ensures
            json@ == json_str(text@),
    {
        Json::String(text.to_owned())
    }

    /// A document that is one number.
    pub fn count(n: u64) -> (json: Json)
        ensures
            json@ == json_u64(n),
    {
        Json::Number(JsonNumber::from_u64(n))
    }

    /// A document that is one number.
    pub fn integer(n: i64) -> (json: Json)
        ensures
            json@ == json_i64(n),
    {
        Json::Number(JsonNumber::from_i64(n))
    }

    /// A document that is one text, or null.
    pub fn opt_text(text: Option<&str>) -> (json: Json)
        ensures
            json@ == json_opt_str(opt_text(text)),
    {
        match text {
            Some(text) => Json::text(text),
            None => Json::Null,
        }
    }

    /// Whether the document is null.
    pub fn is_null(&self) -> (null: bool)
        ensures
            null == (self@ is Null),
    {
        match self {
            Json::Null => true,
            _ => false,
        }
    }

    /// The field `key`, if the document is an object that has it.
    pub fn get(&self, key: &str) -> (value: Option<&Json>)
        ensures
            opt_view(value) == self@.get(key@),
    {
        match self {
            Json::Object(map) => map.get(key),
            _ => None,
        }
    }

    /// The field `inner` of the field `outer`.
    pub fn get2(&self, outer: &str, inner: &str) -> (value: Option<&Json>)
        ensures
            opt_view(value) == self@.get2(outer@, inner@),
    {
        match self.get(outer) {
            Some(value) => value.get(inner),
            None => None,
        }
    }

    /// The text, if the document is one.
    pub fn as_str(&self) -> (text: Option<&str>)
        ensures
            opt_text(text) == self@.str(),
    {
        match self {
            Json::String(text) => Some(text.as_str()),
            _ => None,
        }
    }

    /// The number, if the document is an integer without sign.
    pub fn as_u64(&self) -> (n: Option<u64>)
        ensures
            n == self@.u64(),
    {
        match self {
            Json::Number(n) => n.as_u64(),
            _ => None,
        }
    }

    /// The number, if the document is an integer that fits 64 bits with sign.
    pub fn as_i64(&self) -> (n: Option<i64>)
        ensures
            n == self@.i64(),
    {
        match self {
            Json::Number(n) => n.as_i64(),
            _ => None,
        }
    }

    /// The items, if the document is an array.
    pub fn as_array(&self) -> (items: Option<&Vec<Json>>)
        ensures
            self@.array() == (match items {
                Some(items) => Some(items_view(items@)),
                None => None,
            }),
    {
        match self {
            Json::Array(items) => Some(items),
            _ => None,
        }
    }

    /// The fields, if the document is an object.
    pub fn as_object(&self) -> (map: Option<&JsonMap>)
        ensures
            self@.object() == (match map {
                Some(map) => Some(map@),
                None => None,
            }),
    {
        match self {
            Json::Object(map) => Some(map),
            _ => None,
        }
    }

    /// The text of the field `key`, if it is a text.
    pub fn str_at(&self, key: &str) -> (text: Option<&str>)
        ensures
            opt_text(text) == self@.str_at(key@),
    {
        match self.get(key) {
            Some(value) => value.as_str(),
            None => None,
        }
    }

    /// The text of the field `inner` of the field `outer`, if it is a text.
    pub fn str_at2(&self, outer: &str, inner: &str) -> (text: Option<&str>)
        ensures
            opt_text(text) == self@.str_at2(outer@, inner@),
    {
        match self.get2(outer, inner) {
            Some(value) => value.as_str(),
            None => None,
        }
    }

    /// The number of the field `key`, if it is an integer without sign.
    pub fn u64_at(&self, key: &str) -> (n: Option<u64>)
        ensures
            n == self@.u64_at(key@),
    {
        match self.get(key) {
            Some(value) => value.as_u64(),
            None => None,
        }
    }

    /// The truth value of the field `key`; false if it is none.
    pub fn bool_at(&self, key: &str) -> (b: bool)
        ensures
            b == self@.bool_at(key@),
    {
        match self.get(key) {
            Some(Json::Bool(b)) => *b,
            _ => false,
        }
    }

    /// The items of the field `key`, if it is an array.
    pub fn array_at(&self, key: &str) -> (items: Option<&Vec<Json>>)
        ensures
            items matches Some(list) ==> {
                &&& self@.get(key@) == Some(JsonView::Array(items_view(list@)))
                &&& self@.items_at(key@) == items_view(list@)
            },
            items is None ==> {
                &&& !(self@.get(key@) matches Some(JsonView::Array(_)))
                &&& self@.items_at(key@) == Seq::<JsonView>::empty()
            },
    {
        match self.get(key) {
            Some(value) => value.as_array(),
            None => None,
        }
    }
}

/// An outside document, as a value that is only handed on.
#[verifier::external_type_specification]
#[verifier::external_body]
pub struct ExValue(serde_json::Value);

/// The contents of an outside document.
pub uninterp spec fn document(value: serde_json::Value) -> JsonView;

/// An outside document, opened by one level.
pub enum Node {
    Null,
    Bool(bool),
    PosInt(u64),
    NegInt(i64),
    Float(String),
    String(String),
    Array(Vec<serde_json::Value>),
    Object(Vec<(String, serde_json::Value)>),
}

/// The contents of a list of outside documents.
pub open spec fn documents(values: Seq<serde_json::Value>) -> Seq<JsonView> {
    values.map_values(|value: serde_json::Value| document(value))
}

/// The fields that a list of outside entries gives; the last entry for a key counts.
pub open spec fn members(entries: Seq<(String, serde_json::Value)>) -> Map<Seq<char>, JsonView>
    decreases entries.len(),
{
    if entries.len() == 0 {
        Map::empty()
    } else {
        members(entries.drop_last()).insert(entries.last().0@, document(entries.last().1))
    }
}

impl Node {
    /// The contents of the document that this level and those below it make up.
    pub open spec fn view(&self) -> JsonView {
        match self {
            Node::Null => JsonView::Null,
            Node::Bool(b) => JsonView::Bool(*b),
            Node::PosInt(n) => JsonView::Number(NumberView::PosInt(*n)),
            Node::NegInt(n) => JsonView::Number(NumberView::NegInt(*n)),
            Node::Float(text) => JsonView::Number(NumberView::Float(text@)),
            Node::String(text) => JsonView::String(text@),
            Node::Array(items) => JsonView::Array(documents(items@)),
            Node::Object(entries) => JsonView::Object(members(entries@)),
        }
    }

    /// Whether no two entries of an object have the same key.
    pub open spec fn distinct(&self) -> bool {
        self matches Node::Object(entries) ==> forall|i: int, j: int|
            0 <= i < j < entries@.len() ==> entries@[i].0@ != entries@[j].0@
    }
}

/// Tells the variants of `serde_json::Value` apart and moves their contents out. The contract says
/// that nothing is lost, that serde_json keeps only negative numbers as integers with sign
/// (`Number::as_u64` has the others), and that an object of serde_json has no key twice.
#[verifier::external_body]
fn open_value(value: serde_json::Value) -> (node: Node)
    ensures
        node.view() == document(value),
        node matches Node::NegInt(n) ==> n < 0,
        node matches Node::Float(text) ==> float_text(text@),
        node.distinct(),
{
    match value {
        serde_json::Value::Null => Node::Null,
        serde_json::Value::Bool(b) => Node::Bool(b),
        serde_json::Value::Number(n) => match (n.as_u64(), n.as_i64()) {
            (Some(u), _) => Node::PosInt(u),
            (None, Some(i)) => Node::NegInt(i),
            (None, None) => Node::Float(n.to_string()),
        },
        serde_json::Value::String(text) => Node::String(text),
        serde_json::Value::Array(items) => Node::Array(items),
        serde_json::Value::Object(map) => Node::Object(map.into_iter().collect()),
    }
}

/// Builds a `serde_json::Value` from one level of a document. The contract says that the value has
/// the contents of the level: serde_json keeps the last entry for a key, and a floating-point number
/// is read back from the text that it was printed as, which gives the same number.
#[verifier::external_body]
fn close_value(node: Node) -> (value: serde_json::Value)
    requires
        node matches Node::NegInt(n) ==> n < 0,
        node matches Node::Float(text) ==> float_text(text@),
    ensures
        document(value) == node.view(),
{
    match node {
        Node::Null => serde_json::Value::Null,
        Node::Bool(b) => serde_json::Value::Bool(b),
        Node::PosInt(n) => serde_json::Value::from(n),
        Node::NegInt(n) => serde_json::Value::from(n),
        Node::Float(text) => serde_json::Value::Number(
            serde_json::Number::from_f64(text.parse().unwrap()).unwrap(),
        ),
        Node::String(text) => serde_json::Value::String(text),
        Node::Array(items) => serde_json::Value::Array(items),
        Node::Object(entries) => serde_json::Value::Object(entries.into_iter().collect()),
    }
}

proof fn lemma_members(entries: Seq<(String, serde_json::Value)>, i: int)
    requires
        0 <= i < entries.len(),
        forall|i: int, j: int| 0 <= i < j < entries.len() ==> entries[i].0@ != entries[j].0@,
    ensures
        members(entries).dom().finite(),
        members(entries).contains_key(entries[i].0@),
        members(entries)[entries[i].0@] == document(entries[i].1),
    decreases entries.len(),
{
    if i == entries.len() - 1 {
        if entries.len() > 1 {
            lemma_members(entries.drop_last(), i - 1);
        } else {
            assert(entries.drop_last().len() == 0);
        }
    } else {
        lemma_members(entries.drop_last(), i);
        assert(entries.last().0@ != entries[i].0@);
    }
}

impl Json {
    /// The document with the contents of an outside one.
    pub fn from_value(value: serde_json::Value) -> (json: Json)
        ensures
            json@ == document(value),
        decreases document(value),
    {
        let ghost doc = document(value);
        match open_value(value) {
            Node::Null => Json::Null,
            Node::Bool(b) => Json::Bool(b),
            Node::PosInt(n) => Json::Number(JsonNumber { repr: NumberRepr::PosInt(n) }),
            Node::NegInt(n) => Json::Number(JsonNumber { repr: NumberRepr::NegInt(n) }),
            Node::Float(text) => Json::Number(JsonNumber { repr: NumberRepr::Float(text) }),
            Node::String(text) => Json::String(text),
            Node::Array(values) => {
                let ghost whole = values@;
                let mut items: Vec<Json> = Vec::new();
                for v in it: values
                    invariant
                        it.seq() == whole,
                        doc == document(value),
                        doc == JsonView::Array(documents(whole)),
                        items@.len() == it.index(),
                        forall|i: int|
                            0 <= i < items@.len() ==> (#[trigger] items@[i])@ == document(whole[i]),
                {
                    proof {
                        let i = it.index() as int;
                        assert(doc->Array_0[i] == document(v));
                        assert(decreases_to!(doc => doc->Array_0));
                        assert(decreases_to!(doc->Array_0 => doc->Array_0[i]));
                    }
                    items.push(Json::from_value(v));
                }
                assert(items_view(items@) =~= documents(whole));
                Json::Array(items)
            },
            Node::Object(members_list) => {
                let ghost whole = members_list@;
                let mut entries: Vec<(String, Json)> = Vec::new();
                for member in it: members_list
                    invariant
                        it.seq() == whole,
                        doc == document(value),
                        doc == JsonView::Object(members(whole)),
                        forall|i: int, j: int|
                            0 <= i < j < whole.len() ==> whole[i].0@ != whole[j].0@,
                        entries_view(entries@) == members(whole.take(it.index() as int)),
                {
                    let ghost i = it.index() as int;
                    proof {
                        lemma_members(whole, i);
                        assert(decreases_to!(doc => doc->Object_0));
                        assert(decreases_to!(doc->Object_0 => doc->Object_0[whole[i].0@]));
                    }
                    let (key, v) = member;
                    let ghost before = entries@;
                    let inner = Json::from_value(v);
                    entries.push((key, inner));
                    proof {
                        lemma_entries_push(before, (key, inner));
                        assert(whole.take(i + 1).drop_last() =~= whole.take(i));
                    }
                }
                assert(whole.take(whole.len() as int) =~= whole);
                Json::Object(JsonMap { entries })
            },
        }
    }

    /// The outside document with the contents of this one.
    pub fn to_value(&self) -> (value: serde_json::Value)
        ensures
            document(value) == self@,
        decreases self,
    {
        match self {
            Json::Null => close_value(Node::Null),
            Json::Bool(b) => close_value(Node::Bool(*b)),
            Json::Number(n) => {
                proof {
                    use_type_invariant(n);
                }
                match &n.repr {
                    NumberRepr::PosInt(n) => close_value(Node::PosInt(*n)),
                    NumberRepr::NegInt(n) => close_value(Node::NegInt(*n)),
                    NumberRepr::Float(text) => close_value(Node::Float(text.clone())),
                }
            },
            Json::String(text) => close_value(Node::String(text.clone())),
            Json::Array(items) => {
                let mut values: Vec<serde_json::Value> = Vec::new();
                let n = items.len();
                let mut i: usize = 0;
                while i < n
                    invariant
                        i <= n,
                        n == items@.len(),
                        self matches Json::Array(own) && own == items,
                        values@.len() == i,
                        forall|j: int|
                            0 <= j < i ==> document(#[trigger] values@[j]) == items@[j]@,
                    decreases n - i,
                {
                    let value = items[i].to_value();
                    values.push(value);
                    i = i + 1;
                }
                assert(documents(values@) =~= items_view(items@));
                close_value(Node::Array(values))
            },
            Json::Object(map) => {
                let mut members_list: Vec<(String, serde_json::Value)> = Vec::new();
                let n = map.entries.len();
                let mut i: usize = 0;
                while i < n
                    invariant
                        i <= n,
                        n == map.entries@.len(),
                        self matches Json::Object(own) && own == map,
                        members(members_list@) == entries_view(map.entries@.take(i as int)),
                    decreases n - i,
                {
                    let ghost before = members_list@;
                    let key = map.entries[i].0.clone();
                    let value = map.entries[i].1.to_value();
                    members_list.push((key, value));
                    proof {
                        assert(members_list@.drop_last() =~= before);
                        assert(map.entries@.take(i + 1).drop_last() =~= map.entries@.take(i as int));
                    }
                    i = i + 1;
                }
                assert(map.entries@.take(n as int) =~= map.entries@);
                close_value(Node::Object(members_list))
            },
        }
    }
}

/// What serde_json makes of a text: a document, or a message that says what is wrong with it.
pub uninterp spec fn parsed(text: Seq<char>) -> Result<JsonView, Seq<char>>;

/// What serde_json makes of bytes: a document, or a message that says what is wrong with them.
pub uninterp spec fn parsed_bytes(bytes: Seq<u8>) -> Result<JsonView, Seq<char>>;

/// The text that serde_json prints for a document.
pub uninterp spec fn printed(contents: JsonView) -> Seq<char>;

/// Calls `serde_json::from_str` for a `Value`; the message is that of the error. The contract says
/// that the outcome depends on the text alone.
#[verifier::external_body]
fn parse_value(text: &str) -> (result: Result<serde_json::Value, String>)
    ensures
        parsed(text@) == (match result {
            Ok(value) => Ok::<JsonView, Seq<char>>(document(value)),
            Err(message) => Err::<JsonView, Seq<char>>(message@),
        }),
{
    match serde_json::from_str(text) {
        Ok(value) => Ok(value),
        Err(error) => Err(error.to_string()),
    }
}

/// Calls `serde_json::from_slice` for a `Value`; the message is that of the error. The contract says
/// that the outcome depends on the bytes alone.
#[verifier::external_body]
fn parse_slice(bytes: &[u8]) -> (result: Result<serde_json::Value, String>)
    ensures
        parsed_bytes(bytes@) == (match result {
            Ok(value) => Ok::<JsonView, Seq<char>>(document(value)),
            Err(message) => Err::<JsonView, Seq<char>>(message@),
        }),
{
    match serde_json::from_slice(bytes) {
        Ok(value) => Ok(value),
        Err(error) => Err(error.to_string()),
    }
}

/// Calls `serde_json::to_string`, which does not fail for a `Value`. The contract says that the text
/// depends on the contents alone (serde_json sorts the fields of an object by key) and that it is one
/// line: control characters are escaped and no white space is put between the tokens.
#[verifier::external_body]
fn print_value(value: &serde_json::Value) -> (text: String)
    ensures
        text@ == printed(document(*value)),
        !text@.contains('\n'),
        !text@.contains('\r'),
{
    serde_json::to_string(value).unwrap()
}

/// The document that a text holds, or a message that says what is wrong with it.
pub fn parse_json(text: &str) -> (result: Result<Json, String>)
    ensures
        parsed(text@) == (match result {
            Ok(json) => Ok::<JsonView, Seq<char>>(json@),
            Err(message) => Err::<JsonView, Seq<char>>(message@),
        }),
{
    match parse_value(text) {
        Ok(value) => Ok(Json::from_value(value)),
        Err(message) => Err(message),
    }
}

/// The document that bytes hold, or a message that says what is wrong with them.
pub fn parse_json_bytes(bytes: &[u8]) -> (result: Result<Json, String>)
    ensures
        parsed_bytes(bytes@) == (match result {
            Ok(json) => Ok::<JsonView, Seq<char>>(json@),
            Err(message) => Err::<JsonView, Seq<char>>(message@),
        }),
{
    match parse_slice(bytes) {
        Ok(value) => Ok(Json::from_value(value)),
        Err(message) => Err(message),
    }
}

/// The text of a document, on one line.
pub fn print_json(json: &Json) -> (text: String)
    ensures
        text@ == printed(json@),
        !text@.contains('\n'),
        !text@.contains('\r'),
{
    let value = json.to_value();
    print_value(&value)
}

/// What is put into a document is read from it: numbers and texts come back, a field that was set is
/// found, and every other stays as it was.
pub proof fn law_documents_are_read_back(
    fields: Map<Seq<char>, JsonView>,
    key: Seq<char>,
    other: Seq<char>,
    value: JsonView,
    n: u64,
    i: i64,
    text: Seq<char>,
)
    ensures
        json_u64(n).u64() == Some(n),
        n <= i64::MAX ==> json_u64(n).i64() == Some(n as i64),
        n > i64::MAX ==> json_u64(n).i64() is None,
        json_i64(i).i64() == Some(i),
        i >= 0 ==> json_i64(i) == json_u64(i as u64),
        i < 0 ==> json_i64(i).u64() is None,
        json_str(text).str() == Some(text),
        json_str(text).u64() is None && json_str(text).i64() is None,
        JsonView::Object(fields.insert(key, value)).get(key) == Some(value),
        other != key ==> JsonView::Object(fields.insert(key, value)).get(other)
            == JsonView::Object(fields).get(other),
        JsonView::Object(fields.remove(key)).get(key) is None,
        JsonView::Object(no_fields()).get(key) is None,
        value is String || value is Array || value is Null || value is Bool || value is Number
            ==> value.get(key) is None,
{
}

/// What is asked of a document is answered by what stands there: a text, a number, a list or a truth
/// value counts only as what it is, and a field of a field is looked up step by step.
pub proof fn law_fields_are_looked_up(document: JsonView, key: Seq<char>, inner: Seq<char>)
    ensures
        document.get(key) is None ==> {
            &&& document.get2(key, inner) is None
            &&& document.str_at(key) is None
            &&& document.u64_at(key) is None
            &&& document.items_at(key).len() == 0
            &&& !document.bool_at(key)
            &&& document.str_at2(key, inner) is None
        },
        document.get(key) matches Some(value) ==> {
            &&& document.get2(key, inner) == value.get(inner)
            &&& document.str_at2(key, inner) == value.str_at(inner)
            &&& value matches JsonView::String(text) ==> document.str_at(key) == Some(text)
            &&& !(value is String) ==> document.str_at(key) is None
            &&& value matches JsonView::Array(items) ==> document.items_at(key) == items
            &&& !(value is Array) ==> document.items_at(key).len() == 0
            &&& document.bool_at(key) <==> value == JsonView::Bool(true)
            &&& !(value is Number) ==> document.u64_at(key) is None
        },
{
}

}
