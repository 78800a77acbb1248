//! The `#[brom(...)]` attributes of an entity declaration and of its fields.
//!
//! An attribute is given as its path and its items: a bare name such as `unique`,
//! `name = "value"`, or a group such as `ui(widget = "markdown")`. Only attributes
//! whose path is `brom` are read.
use vstd::prelude::*;

use crate::text::str_eq;

verus! {

broadcast use vstd::string::group_string_axioms;

/// The value part of an item inside a group.
pub enum InnerValue {
    /// A bare name, with no `= ...`.
    Absent,
    /// `= "text"`.
    Text(String),
    /// `= ...` with something other than a string literal.
    Other,
    /// A further group `(...)`, which is not read.
    List,
}

/// The mathematical value of an [`InnerValue`].
pub enum InnerValueModel {
    Absent,
    Text(Seq<char>),
    Other,
    List,
}

impl View for InnerValue {
    type V = InnerValueModel;

    open spec fn view(&self) -> InnerValueModel {
        match self {
            InnerValue::Absent => InnerValueModel::Absent,
            InnerValue::Text(t) => InnerValueModel::Text(t@),
            InnerValue::Other => InnerValueModel::Other,
            InnerValue::List => InnerValueModel::List,
        }
    }
}

/// One item inside a group.
pub struct InnerItem {
    pub name: String,
    pub value: InnerValue,
}

/// The mathematical value of an [`InnerItem`].
pub struct InnerItemModel {
    pub name: Seq<char>,
    pub value: InnerValueModel,
}

impl View for InnerItem {
    type V = InnerItemModel;

    open spec fn view(&self) -> InnerItemModel {
        InnerItemModel { name: self.name@, value: self.value@ }
    }
}

/// The value part of an attribute item.
pub enum MetaValue {
    /// A bare name, with no `= ...`.
    Absent,
    /// `= "text"`.
    Text(String),
    /// `= ...` with something other than a string literal.
    Other,
    /// A group `(...)` of inner items.
    List(Vec<InnerItem>),
}

/// The mathematical value of a [`MetaValue`].
pub enum MetaValueModel {
    Absent,
    Text(Seq<char>),
    Other,
    List(Seq<InnerItemModel>),
}

impl View for MetaValue {
    type V = MetaValueModel;

    open spec fn view(&self) -> MetaValueModel {
        match self {
            MetaValue::Absent => MetaValueModel::Absent,
            MetaValue::Text(t) => MetaValueModel::Text(t@),
            MetaValue::Other => MetaValueModel::Other,
            MetaValue::List(v) => MetaValueModel::List(v@.map_values(|i: InnerItem| i@)),
        }
    }
}

/// One item of an attribute.
pub struct MetaItem {
    pub name: String,
    pub value: MetaValue,
}

/// The mathematical value of a [`MetaItem`].
pub struct MetaItemModel {
    pub name: Seq<char>,
    pub value: MetaValueModel,
}

impl View for MetaItem {
    type V = MetaItemModel;

    open spec fn view(&self) -> MetaItemModel {
        MetaItemModel { name: self.name@, value: self.value@ }
    }
}

/// One attribute: its path and its items.
pub struct Attribute {
    pub path: String,
    pub items: Vec<MetaItem>,
}

/// The mathematical value of an [`Attribute`].
pub struct AttributeModel {
    pub path: Seq<char>,
    pub items: Seq<MetaItemModel>,
}

impl View for Attribute {
    type V = AttributeModel;

    open spec fn view(&self) -> AttributeModel {
        AttributeModel { path: self.path@, items: self.items@.map_values(|i: MetaItem| i@) }
    }
}

/// The values of a sequence of attributes.
pub open spec fn attributes_model(s: Seq<Attribute>) -> Seq<AttributeModel> {
    s.map_values(|a: Attribute| a@)
}

/// Whether the attributes belong to an entity or to one of its fields.
#[derive(Debug, Clone, Copy, PartialEq, Eq, Structural)]
pub enum AttrTarget {
    Struct,
    Field,
}

/// What an item name means for a target.
#[derive(Debug, Clone, Copy, PartialEq, Eq, Structural)]
pub enum KeyKind {
    /// A bare name that switches something on.
    Flag,
    /// A name that takes a string value.
    Valued,
    /// A name that takes a group of items.
    Group,
    /// A name that the target does not know.
    Unknown,
}

/// What `name` means on an entity (`table`, `auth_policy`) or on a field (`unique`,
/// `not_null`, `hidden`; `default`, `widget`, `link`, `many_many`, `junction`; the
/// group `ui`, which holds `widget`).
pub open spec fn key_kind(target: AttrTarget, name: Seq<char>) -> KeyKind {
    match target {
        AttrTarget::Struct => if name == "table"@ || name == "auth_policy"@ {
            KeyKind::Valued
        } else {
            KeyKind::Unknown
        },
        AttrTarget::Field => if name == "unique"@ || name == "not_null"@ || name == "hidden"@ {
            KeyKind::Flag
        } else if name == "default"@ || name == "widget"@ || name == "link"@ || name
            == "many_many"@ || name == "junction"@ {
            KeyKind::Valued
        } else if name == "ui"@ {
            KeyKind::Group
        } else {
            KeyKind::Unknown
        },
    }
}

/// Why an attribute item was refused.
#[derive(Debug, Clone, Copy, PartialEq, Eq, Structural)]
pub enum AttrErrorKind {
    /// The name is not one the target knows.
    Unrecognized,
    /// A valued name came without `= "..."`.
    MissingValue,
    /// A valued name came with something other than a string literal.
    NotAString,
    /// A flag came with a value.
    UnexpectedValue,
    /// A group name came without `(...)`.
    ExpectedList,
}

/// The message of an attribute error.
pub open spec fn attr_error_message(k: AttrErrorKind) -> Seq<char> {
    match k {
        AttrErrorKind::Unrecognized => "unrecognized brom attribute"@,
        AttrErrorKind::MissingValue => "expected `=`"@,
        AttrErrorKind::NotAString => "expected string literal"@,
        AttrErrorKind::UnexpectedValue => "expected `,`"@,
        AttrErrorKind::ExpectedList => "expected parentheses"@,
    }
}

/// A refused attribute item: its name and why it was refused.
pub struct AttrError {
    pub name: String,
    pub kind: AttrErrorKind,
}

impl AttrError {
    /// The error's message.
    pub fn message(&self) -> (m: String)
        ensures
            m@ == attr_error_message(self.kind),
    {
        match self.kind {
            AttrErrorKind::Unrecognized => String::from_str("unrecognized brom attribute"),
            AttrErrorKind::MissingValue => String::from_str("expected `=`"),
            AttrErrorKind::NotAString => String::from_str("expected string literal"),
            AttrErrorKind::UnexpectedValue => String::from_str("expected `,`"),
            AttrErrorKind::ExpectedList => String::from_str("expected parentheses"),
        }
    }
}

/// The (name, kind) pairs of a sequence of errors.
pub open spec fn errors_model(s: Seq<AttrError>) -> Seq<(Seq<char>, AttrErrorKind)> {
    s.map_values(|e: AttrError| (e.name@, e.kind))
}

/// Why an item inside the `ui` group is refused, if it is: only `widget = "..."` is
/// read there.
pub open spec fn inner_error(item: InnerItemModel) -> Option<AttrErrorKind> {
    if item.name == "widget"@ {
        match item.value {
            InnerValueModel::Text(_) => None,
            InnerValueModel::Other => Some(AttrErrorKind::NotAString),
            _ => Some(AttrErrorKind::MissingValue),
        }
    } else {
        Some(AttrErrorKind::Unrecognized)
    }
}

/// The first refused item of a group, with its name: reading the group stops there.
pub open spec fn first_inner_error(items: Seq<InnerItemModel>) -> Option<(Seq<char>, AttrErrorKind)>
    decreases items.len(),
{
    if items.len() == 0 {
        None
    } else if inner_error(items[0]) is Some {
        Some((items[0].name, inner_error(items[0]).unwrap()))
    } else {
        first_inner_error(items.drop_first())
    }
}

/// Why `item` is refused on `target`, if it is, with the name of the refused item
/// (the item itself, or an item of its group).
pub open spec fn item_error(target: AttrTarget, item: MetaItemModel) -> Option<
    (Seq<char>, AttrErrorKind),
> {
    match key_kind(target, item.name) {
        KeyKind::Flag => if item.value is Absent {
            None
        } else {
            Some((item.name, AttrErrorKind::UnexpectedValue))
        },
        KeyKind::Valued => match item.value {
            MetaValueModel::Text(_) => None,
            MetaValueModel::Other => Some((item.name, AttrErrorKind::NotAString)),
            _ => Some((item.name, AttrErrorKind::MissingValue)),
        },
        KeyKind::Group => match item.value {
            MetaValueModel::List(inner) => first_inner_error(inner),
            _ => Some((item.name, AttrErrorKind::ExpectedList)),
        },
        KeyKind::Unknown => Some((item.name, AttrErrorKind::Unrecognized)),
    }
}

/// The first refused item of one attribute: reading an attribute stops there.
pub open spec fn first_item_error(target: AttrTarget, items: Seq<MetaItemModel>) -> Option<
    (Seq<char>, AttrErrorKind),
>
    decreases items.len(),
{
    if items.len() == 0 {
        None
    } else if item_error(target, items[0]) is Some {
        item_error(target, items[0])
    } else {
        first_item_error(target, items.drop_first())
    }
}

/// Whether an attribute is a `brom` attribute.
pub open spec fn is_brom(a: AttributeModel) -> bool {
    a.path == "brom"@
}

/// The errors of a list of attributes: one for each `brom` attribute with a refused
/// item, in order.
pub open spec fn attribute_errors(target: AttrTarget, attrs: Seq<AttributeModel>) -> Seq<
    (Seq<char>, AttrErrorKind),
>
    decreases attrs.len(),
{
    if attrs.len() == 0 {
        seq![]
    } else {
        let rest = attribute_errors(target, attrs.drop_last());
        let a = attrs.last();
        if is_brom(a) && first_item_error(target, a.items) is Some {
            rest.push(first_item_error(target, a.items).unwrap())
        } else {
            rest
        }
    }
}

/// The items of all `brom` attributes, in order.
pub open spec fn brom_items(attrs: Seq<AttributeModel>) -> Seq<MetaItemModel>
    decreases attrs.len(),
{
    if attrs.len() == 0 {
        seq![]
    } else if is_brom(attrs.last()) {
        brom_items(attrs.drop_last()) + attrs.last().items
    } else {
        brom_items(attrs.drop_last())
    }
}

/// The text last given to `key`, if any: a later item overrides an earlier one.
pub open spec fn last_text(items: Seq<MetaItemModel>, key: Seq<char>) -> Option<Seq<char>>
    decreases items.len(),
{
    if items.len() == 0 {
        None
    } else {
        match items.last().value {
            MetaValueModel::Text(t) => if items.last().name == key {
                Some(t)
            } else {
                last_text(items.drop_last(), key)
            },
            _ => last_text(items.drop_last(), key),
        }
    }
}

/// Whether some item is named `key`.
pub open spec fn has_item(items: Seq<MetaItemModel>, key: Seq<char>) -> bool {
    exists|i: int| 0 <= i < items.len() && #[trigger] items[i].name == key
}

fn inner_error_of(item: &InnerItem) -> (r: Option<AttrErrorKind>)
    ensures
        r == inner_error(item@),
{
    if str_eq(item.name.as_str(), "widget") {
        match item.value {
            InnerValue::Text(_) => None,
            InnerValue::Other => Some(AttrErrorKind::NotAString),
            _ => Some(AttrErrorKind::MissingValue),
        }
    } else {
        Some(AttrErrorKind::Unrecognized)
    }
}

/// The first refused item of a group.
fn group_error(items: &Vec<InnerItem>) -> (r: Option<AttrError>)
    ensures
        match r {
            Some(e) => first_inner_error(items@.map_values(|i: InnerItem| i@)) == Some(
                (e.name@, e.kind),
            ),
            None => first_inner_error(items@.map_values(|i: InnerItem| i@)) is None,
        },
{
    let ghost m = items@.map_values(|i: InnerItem| i@);
    assert(m.skip(0) == m);
    for j in 0..items.len()
        invariant
            m == items@.map_values(|i: InnerItem| i@),
            m.len() == items.len(),
            first_inner_error(m) == first_inner_error(m.skip(j as int)),
    {
        let ghost rest = m.skip(j as int);
        assert(rest[0] == items@[j as int]@);
        assert(rest.drop_first() == m.skip(j + 1));
        match inner_error_of(&items[j]) {
            Some(kind) => {
                return Some(AttrError { name: items[j].name.clone(), kind });
            },
            None => {},
        }
    }
    assert(m.skip(items.len() as int).len() == 0);
    None
}

fn item_error_of(target: AttrTarget, item: &MetaItem) -> (r: Option<AttrError>)
    ensures
        match r {
            Some(e) => item_error(target, item@) == Some((e.name@, e.kind)),
            None => item_error(target, item@) is None,
        },
{
    let n = item.name.as_str();
    let kind = match target {
        AttrTarget::Struct => if str_eq(n, "table") || str_eq(n, "auth_policy") {
            KeyKind::Valued
        } else {
            KeyKind::Unknown
        },
        AttrTarget::Field => if str_eq(n, "unique") || str_eq(n, "not_null") || str_eq(
            n,
            "hidden",
        ) {
            KeyKind::Flag
        } else if str_eq(n, "default") || str_eq(n, "widget") || str_eq(n, "link") || str_eq(
            n,
            "many_many",
        ) || str_eq(n, "junction") {
            KeyKind::Valued
        } else if str_eq(n, "ui") {
            KeyKind::Group
        } else {
            KeyKind::Unknown
        },
    };
    assert(kind == key_kind(target, item.name@));
    let found = match kind {
        KeyKind::Flag => match item.value {
            MetaValue::Absent => None,
            _ => Some(AttrErrorKind::UnexpectedValue),
        },
        KeyKind::Valued => match item.value {
            MetaValue::Text(_) => None,
            MetaValue::Other => Some(AttrErrorKind::NotAString),
            _ => Some(AttrErrorKind::MissingValue),
        },
        KeyKind::Group => match &item.value {
            MetaValue::List(inner) => {
                return group_error(inner);
            },
            _ => Some(AttrErrorKind::ExpectedList),
        },
        KeyKind::Unknown => Some(AttrErrorKind::Unrecognized),
    };
    match found {
        Some(k) => Some(AttrError { name: item.name.clone(), kind: k }),
        None => None,
    }
}

proof fn lemma_first_item_error(target: AttrTarget, items: Seq<MetaItemModel>, j: int)
    requires
        0 <= j <= items.len(),
        forall|k: int| 0 <= k < j ==> item_error(target, #[trigger] items[k]) is None,
    ensures
        first_item_error(target, items) == first_item_error(target, items.skip(j)),
    decreases j,
{
    if j > 0 {
        assert(item_error(target, items[0]) is None);
        assert forall|k: int| 0 <= k < j - 1 implies item_error(
            target,
            #[trigger] items.drop_first()[k],
        ) is None by {
            assert(items.drop_first()[k] == items[k + 1]);
        }
        lemma_first_item_error(target, items.drop_first(), j - 1);
        assert(items.drop_first().skip(j - 1) == items.skip(j));
    } else {
        assert(items.skip(0) == items);
    }
}

/// The first refused item of one attribute.
fn attribute_error(target: AttrTarget, a: &Attribute) -> (r: Option<AttrError>)
    ensures
        match r {
            Some(e) => first_item_error(target, a@.items) == Some((e.name@, e.kind)),
            None => first_item_error(target, a@.items) is None,
        },
{
    let ghost items = a@.items;
    for j in 0..a.items.len()
        invariant
            items == a@.items,
            items.len() == a.items.len(),
            forall|k: int| 0 <= k < j ==> item_error(target, #[trigger] items[k]) is None,
    {
        let item = &a.items[j];
        assert(item@ == items[j as int]);
        match item_error_of(target, item) {
            Some(e) => {
                proof {
                    lemma_first_item_error(target, items, j as int);
                    assert(items.skip(j as int)[0] == items[j as int]);
                }
                return Some(e);
            },
            None => {},
        }
    }
    proof {
        lemma_first_item_error(target, items, items.len() as int);
        assert(items.skip(items.len() as int).len() == 0);
    }
    None
}

/// The errors of a list of attributes.
pub fn attribute_errors_of(target: AttrTarget, attrs: &Vec<Attribute>) -> (r: Vec<AttrError>)
    ensures
        errors_model(r@) == attribute_errors(target, attributes_model(attrs@)),
{
    let ghost m = attributes_model(attrs@);
    let mut errs: Vec<AttrError> = Vec::new();
    for i in 0..attrs.len()
        invariant
            m == attributes_model(attrs@),
            m.len() == attrs.len(),
            errors_model(errs@) == attribute_errors(target, m.take(i as int)),
    {
        let a = &attrs[i];
        assert(m.take(i + 1).drop_last() == m.take(i as int));
        assert(m.take(i + 1).last() == a@);
        let ghost before = errs@;
        if str_eq(a.path.as_str(), "brom") {
            proof {
                reveal_strlit("brom");
            }
            match attribute_error(target, a) {
                Some(e) => {
                    errs.push(e);
                    assert(errors_model(errs@) == errors_model(before).push((
                        errs@.last().name@,
                        errs@.last().kind,
                    )));
                },
                None => {},
            }
        } else {
            proof {
                reveal_strlit("brom");
            }
        }
    }
    assert(m.take(attrs.len() as int) == m);
    errs
}

/// The text last given to `key` in the `brom` attributes.
pub(crate) fn last_text_of(attrs: &Vec<Attribute>, key: &str) -> (r: Option<String>)
    ensures
        match r {
            Some(t) => last_text(brom_items(attributes_model(attrs@)), key@) == Some(t@),
            None => last_text(brom_items(attributes_model(attrs@)), key@) is None,
        },
{
    let ghost m = attributes_model(attrs@);
    let mut r: Option<String> = None;
    for i in 0..attrs.len()
        invariant
            m == attributes_model(attrs@),
            m.len() == attrs.len(),
            match r {
                Some(t) => last_text(brom_items(m.take(i as int)), key@) == Some(t@),
                None => last_text(brom_items(m.take(i as int)), key@) is None,
            },
    {
        let a = &attrs[i];
        assert(m.take(i + 1).drop_last() == m.take(i as int));
        assert(m.take(i + 1).last() == a@);
        proof {
            reveal_strlit("brom");
        }
        if str_eq(a.path.as_str(), "brom") {
            let ghost before = brom_items(m.take(i as int));
            let ghost items = a@.items;
            assert(brom_items(m.take(i + 1)) == before + items);
            for j in 0..a.items.len()
                invariant
                    items == a@.items,
                    items.len() == a.items.len(),
                    match r {
                        Some(t) => last_text(before + items.take(j as int), key@) == Some(t@),
                        None => last_text(before + items.take(j as int), key@) is None,
                    },
            {
                let item = &a.items[j];
                assert(item@ == items[j as int]);
                assert((before + items.take(j + 1)).drop_last() == before + items.take(j as int));
                assert((before + items.take(j + 1)).last() == items[j as int]);
                match &item.value {
                    MetaValue::Text(t) => {
                        if str_eq(item.name.as_str(), key) {
                            r = Some(t.clone());
                        }
                    },
                    _ => {},
                }
            }
            assert(items.take(items.len() as int) == items);
        }
    }
    assert(m.take(attrs.len() as int) == m);
    r
}

/// An item inside the `ui` group, read as an item of its own.
pub open spec fn inner_as_item(i: InnerItemModel) -> MetaItemModel {
    MetaItemModel {
        name: i.name,
        value: match i.value {
            InnerValueModel::Absent => MetaValueModel::Absent,
            InnerValueModel::Text(t) => MetaValueModel::Text(t),
            _ => MetaValueModel::Other,
        },
    }
}

/// The items with the `ui` groups opened: the items of a `ui(...)` group stand in
/// its place (so `ui(widget = "...")` gives the widget as `widget = "..."` does); a
/// group under another name is read as a value that is not a text.
pub open spec fn with_groups_opened(items: Seq<MetaItemModel>) -> Seq<MetaItemModel>
    decreases items.len(),
{
    if items.len() == 0 {
        seq![]
    } else {
        let rest = with_groups_opened(items.drop_last());
        let it = items.last();
        match it.value {
            MetaValueModel::List(inner) => if it.name == "ui"@ {
                rest + inner.map_values(|i: InnerItemModel| inner_as_item(i))
            } else {
                rest.push(MetaItemModel { name: it.name, value: MetaValueModel::Other })
            },
            _ => rest.push(it),
        }
    }
}

/// The values of a sequence of items.
pub open spec fn items_model(v: Seq<MetaItem>) -> Seq<MetaItemModel> {
    v.map_values(|i: MetaItem| i@)
}

fn inner_item_as_item(i: &InnerItem) -> (r: MetaItem)
    ensures
        r@ == inner_as_item(i@),
{
    let value = match &i.value {
        InnerValue::Absent => MetaValue::Absent,
        InnerValue::Text(t) => MetaValue::Text(t.clone()),
        _ => MetaValue::Other,
    };
    MetaItem { name: i.name.clone(), value }
}

/// Appends the items that `item` stands for once its `ui` group is opened.
fn push_opened(out: &mut Vec<MetaItem>, item: &MetaItem)
    ensures
        items_model(final(out)@) == items_model(old(out)@) + with_groups_opened(seq![item@]),
{
    let ghost one = seq![item@];
    assert(one.drop_last() == Seq::<MetaItemModel>::empty());
    assert(one.last() == item@);
    let ghost start = items_model(out@);
    assert(with_groups_opened(Seq::<MetaItemModel>::empty()) == Seq::<MetaItemModel>::empty());
    match &item.value {
        MetaValue::List(inner) => {
            let ghost im = inner@.map_values(|i: InnerItem| i@);
            assert(item@.value == MetaValueModel::List(im));
            if str_eq(item.name.as_str(), "ui") {
                for k in 0..inner.len()
                    invariant
                        im == inner@.map_values(|i: InnerItem| i@),
                        im.len() == inner.len(),
                        items_model(out@) == start + im.take(k as int).map_values(
                            |i: InnerItemModel| inner_as_item(i),
                        ),
                {
                    let ghost o0 = out@;
                    let x = inner_item_as_item(&inner[k]);
                    out.push(x);
                    assert(items_model(out@) =~= items_model(o0).push(x@));
                    assert(im.take(k + 1).map_values(|i: InnerItemModel| inner_as_item(i))
                        =~= im.take(k as int).map_values(|i: InnerItemModel| inner_as_item(i)).push(
                        inner_as_item(im[k as int]),
                    ));
                }
                assert(im.take(inner.len() as int) == im);
                assert(with_groups_opened(one) =~= Seq::<MetaItemModel>::empty() + im.map_values(
                    |i: InnerItemModel| inner_as_item(i),
                ));
            } else {
                let ghost o0 = out@;
                let x = MetaItem { name: item.name.clone(), value: MetaValue::Other };
                out.push(x);
                assert(items_model(out@) =~= items_model(o0).push(x@));
                assert(with_groups_opened(one) =~= seq![x@]);
            }
        },
        _ => {
            let ghost o0 = out@;
            let value = match &item.value {
                MetaValue::Absent => MetaValue::Absent,
                MetaValue::Text(t) => MetaValue::Text(t.clone()),
                _ => MetaValue::Other,
            };
            let x = MetaItem { name: item.name.clone(), value };
            assert(x@ == item@);
            out.push(x);
            assert(items_model(out@) =~= items_model(o0).push(x@));
            assert(with_groups_opened(one) =~= seq![item@]);
        },
    }
}

proof fn lemma_opened_push(s: Seq<MetaItemModel>, x: MetaItemModel)
    ensures
        with_groups_opened(s.push(x)) == with_groups_opened(s) + with_groups_opened(seq![x]),
{
    let one = seq![x];
    assert(one.drop_last() == Seq::<MetaItemModel>::empty());
    assert(s.push(x).drop_last() == s);
    assert(with_groups_opened(Seq::<MetaItemModel>::empty()) == Seq::<MetaItemModel>::empty());
    match x.value {
        MetaValueModel::List(inner) => {
            if x.name == "ui"@ {
                assert(with_groups_opened(one) =~= Seq::<MetaItemModel>::empty()
                    + inner.map_values(|i: InnerItemModel| inner_as_item(i)));
            } else {
                assert(with_groups_opened(one) =~= seq![MetaItemModel { name: x.name, value: MetaValueModel::Other }]);
            }
        },
        _ => {
            assert(with_groups_opened(one) =~= seq![x]);
        },
    }
}

/// The items of the `brom` attributes of a field, with the `ui` groups opened.
fn field_items(attrs: &Vec<Attribute>) -> (r: Vec<MetaItem>)
    ensures
        items_model(r@) == with_groups_opened(brom_items(attributes_model(attrs@))),
{
    let ghost m = attributes_model(attrs@);
    let mut out: Vec<MetaItem> = Vec::new();
    for i in 0..attrs.len()
        invariant
            m == attributes_model(attrs@),
            m.len() == attrs.len(),
            items_model(out@) == with_groups_opened(brom_items(m.take(i as int))),
    {
        let a = &attrs[i];
        assert(m.take(i + 1).drop_last() == m.take(i as int));
        assert(m.take(i + 1).last() == a@);
        proof {
            reveal_strlit("brom");
        }
        if str_eq(a.path.as_str(), "brom") {
            let ghost before = brom_items(m.take(i as int));
            let ghost items = a@.items;
            assert(brom_items(m.take(i + 1)) == before + items);
            assert(before + items.take(0) == before);
            for j in 0..a.items.len()
                invariant
                    items == a@.items,
                    items.len() == a.items.len(),
                    items_model(out@) == with_groups_opened(before + items.take(j as int)),
            {
                let item = &a.items[j];
                assert(item@ == items[j as int]);
                assert(before + items.take(j + 1) == (before + items.take(j as int)).push(
                    items[j as int],
                ));
                proof {
                    lemma_opened_push(before + items.take(j as int), items[j as int]);
                }
                push_opened(&mut out, item);
            }
            assert(items.take(items.len() as int) == items);
        }
    }
    assert(m.take(attrs.len() as int) == m);
    out
}

/// The text last given to `key` among `items`.
fn last_text_in(items: &Vec<MetaItem>, key: &str) -> (r: Option<String>)
    ensures
        match r {
            Some(t) => last_text(items_model(items@), key@) == Some(t@),
            None => last_text(items_model(items@), key@) is None,
        },
{
    let ghost m = items_model(items@);
    let mut r: Option<String> = None;
    for j in 0..items.len()
        invariant
            m == items_model(items@),
            m.len() == items.len(),
            match r {
                Some(t) => last_text(m.take(j as int), key@) == Some(t@),
                None => last_text(m.take(j as int), key@) is None,
            },
    {
        let item = &items[j];
        assert(m.take(j + 1).drop_last() == m.take(j as int));
        assert(m.take(j + 1).last() == item@);
        match &item.value {
            MetaValue::Text(t) => {
                if str_eq(item.name.as_str(), key) {
                    r = Some(t.clone());
                }
            },
            _ => {},
        }
    }
    assert(m.take(items.len() as int) == m);
    r
}

/// Whether some item of `items` is named `key`.
fn has_item_in(items: &Vec<MetaItem>, key: &str) -> (r: bool)
    ensures
        r == has_item(items_model(items@), key@),
{
    let ghost m = items_model(items@);
    for j in 0..items.len()
        invariant
            m == items_model(items@),
            m.len() == items.len(),
            forall|k: int| 0 <= k < j ==> m[k].name != key@,
    {
        if str_eq(items[j].name.as_str(), key) {
            assert(m[j as int].name == key@);
            return true;
        }
    }
    false
}

/// The `brom` attributes of an entity.
pub struct BromStructAttrs {
    pub table_name: Option<String>,
    pub auth_policy: Option<String>,
}

/// The mathematical value of [`BromStructAttrs`].
pub struct StructAttrsModel {
    pub table_name: Option<Seq<char>>,
    pub auth_policy: Option<Seq<char>>,
}

/// The `brom` attributes of a field.
pub struct BromFieldAttrs {
    pub unique: bool,
    pub not_null: bool,
    pub default: Option<String>,
    pub hidden: bool,
    pub ui_widget: Option<String>,
    pub link_target: Option<String>,
    pub many_many_target: Option<String>,
    pub many_many_junction: Option<String>,
}

/// The mathematical value of [`BromFieldAttrs`].
pub struct FieldAttrsModel {
    pub unique: bool,
    pub not_null: bool,
    pub default: Option<Seq<char>>,
    pub hidden: bool,
    pub ui_widget: Option<Seq<char>>,
    pub link_target: Option<Seq<char>>,
    pub many_many_target: Option<Seq<char>>,
    pub many_many_junction: Option<Seq<char>>,
}

/// The mathematical value of an optional string.
pub open spec fn opt_text(o: Option<String>) -> Option<Seq<char>> {
    match o {
        Some(s) => Some(s@),
        None => None,
    }
}

impl View for BromStructAttrs {
    type V = StructAttrsModel;

    open spec fn view(&self) -> StructAttrsModel {
        StructAttrsModel {
            table_name: opt_text(self.table_name),
            auth_policy: opt_text(self.auth_policy),
        }
    }
}

impl View for BromFieldAttrs {
    type V = FieldAttrsModel;

    open spec fn view(&self) -> FieldAttrsModel {
        FieldAttrsModel {
            unique: self.unique,
            not_null: self.not_null,
            default: opt_text(self.default),
            hidden: self.hidden,
            ui_widget: opt_text(self.ui_widget),
            link_target: opt_text(self.link_target),
            many_many_target: opt_text(self.many_many_target),
            many_many_junction: opt_text(self.many_many_junction),
        }
    }
}

/// The entity attributes that the `brom` items give.
pub open spec fn struct_attrs_from(items: Seq<MetaItemModel>) -> StructAttrsModel {
    StructAttrsModel {
        table_name: last_text(items, "table"@),
        auth_policy: last_text(items, "auth_policy"@),
    }
}

/// The field attributes that the `brom` items give.
pub open spec fn field_attrs_from(items: Seq<MetaItemModel>) -> FieldAttrsModel {
    FieldAttrsModel {
        unique: has_item(items, "unique"@),
        not_null: has_item(items, "not_null"@),
        default: last_text(items, "default"@),
        hidden: has_item(items, "hidden"@),
        ui_widget: last_text(items, "widget"@),
        link_target: last_text(items, "link"@),
        many_many_target: last_text(items, "many_many"@),
        many_many_junction: last_text(items, "junction"@),
    }
}

impl BromStructAttrs {
    /// Reads the attributes of an entity: `table = "..."` and `auth_policy = "..."`,
    /// a later item overriding an earlier one. Every `brom` attribute with a refused
    /// item contributes its first refused item to the errors, and any error fails the
    /// whole.
    pub fn parse(attrs: &Vec<Attribute>) -> (r: Result<Self, Vec<AttrError>>)
        ensures
            ({
                let m = attributes_model(attrs@);
                let errs = attribute_errors(AttrTarget::Struct, m);
                match r {
                    Ok(a) => errs.len() == 0 && a@ == struct_attrs_from(brom_items(m)),
                    Err(e) => errs.len() > 0 && errors_model(e@) == errs,
                }
            }),
    {
        let errs = attribute_errors_of(AttrTarget::Struct, attrs);
        if errs.len() > 0 {
            return Err(errs);
        }
        let table_name = last_text_of(attrs, "table");
        let auth_policy = last_text_of(attrs, "auth_policy");
        Ok(BromStructAttrs { table_name, auth_policy })
    }
}

impl BromFieldAttrs {
    /// Reads the attributes of a field: the flags `unique`, `not_null` and `hidden`,
    /// and `default`, `widget`, `link`, `many_many` and `junction` with a string
    /// value; the widget may also be given as `ui(widget = "...")`. A later item
    /// overrides an earlier one. Errors as for an entity.
    pub fn parse(attrs: &Vec<Attribute>) -> (r: Result<Self, Vec<AttrError>>)
        ensures
            ({
                let m = attributes_model(attrs@);
                let errs = attribute_errors(AttrTarget::Field, m);
                match r {
                    Ok(a) => errs.len() == 0 && a@ == field_attrs_from(
                        with_groups_opened(brom_items(m)),
                    ),
                    Err(e) => errs.len() > 0 && errors_model(e@) == errs,
                }
            }),
    {
        let errs = attribute_errors_of(AttrTarget::Field, attrs);
        if errs.len() > 0 {
            return Err(errs);
        }
        let items = field_items(attrs);
        Ok(BromFieldAttrs {
            unique: has_item_in(&items, "unique"),
            not_null: has_item_in(&items, "not_null"),
            default: last_text_in(&items, "default"),
            hidden: has_item_in(&items, "hidden"),
            ui_widget: last_text_in(&items, "widget"),
            link_target: last_text_in(&items, "link"),
            many_many_target: last_text_in(&items, "many_many"),
            many_many_junction: last_text_in(&items, "junction"),
        })
    }
}


/// The attributes whose path is `brom`, in order.
pub open spec fn brom_attributes(attrs: Seq<AttributeModel>) -> Seq<AttributeModel> {
    attrs.filter(|a: AttributeModel| a.path == "brom"@)
}

/// Whether `x` is an item of some attribute of `attrs` whose path is `brom`.
pub open spec fn from_brom_attribute(attrs: Seq<AttributeModel>, x: MetaItemModel) -> bool {
    exists|a: int, j: int|
        0 <= a < attrs.len() && attrs[a].path == "brom"@ && 0 <= j < attrs[a].items.len()
            && #[trigger] attrs[a].items[j] == x
}

proof fn lemma_brom_attributes(target: AttrTarget, m: Seq<AttributeModel>)
    ensures
        brom_items(m) == brom_items(brom_attributes(m)),
        attribute_errors(target, m) == attribute_errors(target, brom_attributes(m)),
        forall|k: int|
            #![trigger brom_items(m)[k]]
            0 <= k < brom_items(m).len() ==> from_brom_attribute(m, brom_items(m)[k]),
    decreases m.len(),
{
    reveal(Seq::filter);
    if m.len() > 0 {
        let init = m.drop_last();
        let x = m.last();
        lemma_brom_attributes(target, init);
        let f = brom_attributes(init);
        assert(m.filter(|a: AttributeModel| a.path == "brom"@) == brom_attributes(m));
        assert(init.filter(|a: AttributeModel| a.path == "brom"@) == f);
        if x.path == "brom"@ {
            assert(brom_attributes(m) == f.push(x));
            assert(f.push(x).drop_last() =~= f);
            assert(f.push(x).last() == x);
        } else {
            assert(brom_attributes(m) == f);
        }
        assert forall|k: int| #![trigger brom_items(m)[k]] 0 <= k < brom_items(m).len() implies from_brom_attribute(m, brom_items(m)[k]) by {
            let bp = brom_items(init);
            if k < bp.len() {
                assert(brom_items(m)[k] == bp[k]);
                let (a, j) = choose|a: int, j: int|
                    0 <= a < init.len() && init[a].path == "brom"@ && 0 <= j < init[a].items.len()
                        && init[a].items[j] == bp[k];
                assert(m[a] == init[a]);
                assert(m[a].items[j] == brom_items(m)[k]);
            } else {
                assert(x.path == "brom"@);
                assert(brom_items(m) == bp + x.items);
                assert(brom_items(m)[k] == x.items[k - bp.len()]);
                assert(m[m.len() - 1] == x);
                assert(m[m.len() - 1].items[k - bp.len()] == brom_items(m)[k]);
            }
        }
    } else {
        assert(brom_items(m).len() == 0);
    }
}

/// Only `brom` attributes are read: the items and the errors of a list of attributes
/// are those of its `brom` attributes alone, so that attributes of other paths
/// (`serde`, `doc`, ...) change nothing that parsing gives; and every item read comes
/// from an attribute whose path is `brom`.
pub proof fn law_only_brom_attributes_read(target: AttrTarget, attrs: Seq<AttributeModel>)
    ensures
        brom_items(attrs) == brom_items(brom_attributes(attrs)),
        attribute_errors(target, attrs) == attribute_errors(target, brom_attributes(attrs)),
        struct_attrs_from(brom_items(attrs)) == struct_attrs_from(
            brom_items(brom_attributes(attrs)),
        ),
        field_attrs_from(with_groups_opened(brom_items(attrs))) == field_attrs_from(
            with_groups_opened(brom_items(brom_attributes(attrs))),
        ),
        forall|k: int|
            #![trigger brom_items(attrs)[k]]
            0 <= k < brom_items(attrs).len() ==> from_brom_attribute(attrs, brom_items(attrs)[k]),
{
    lemma_brom_attributes(target, attrs);
}


/// Whether item `j` of `items` gives `key` a text.
pub open spec fn gives_text(items: Seq<MetaItemModel>, key: Seq<char>, j: int) -> bool {
    items[j].name == key && items[j].value is Text
}

/// A later item overrides an earlier one: the text read for `key` is that of the last
/// item that gives `key` a text, and there is none when no item does.
pub proof fn law_last_item_wins(items: Seq<MetaItemModel>, key: Seq<char>)
    ensures
        match last_text(items, key) {
            Some(t) => exists|i: int|
                0 <= i < items.len() && #[trigger] items[i] == (MetaItemModel {
                    name: key,
                    value: MetaValueModel::Text(t),
                }) && forall|j: int| i < j < items.len() ==> !gives_text(items, key, j),
            None => forall|j: int| 0 <= j < items.len() ==> !gives_text(items, key, j),
        },
    decreases items.len(),
{
    if items.len() > 0 {
        let init = items.drop_last();
        law_last_item_wins(init, key);
        let n = items.len() - 1;
        if gives_text(items, key, n) {
            let t = items[n].value->Text_0;
            assert(last_text(items, key) == Some(t));
            assert(items[n] == (MetaItemModel { name: key, value: MetaValueModel::Text(t) }));
        } else {
            assert(last_text(items, key) == last_text(init, key));
            assert forall|j: int| 0 <= j < n implies gives_text(items, key, j) == gives_text(
                init,
                key,
                j,
            ) by {
                assert(items[j] == init[j]);
            }
            match last_text(init, key) {
                Some(t) => {
                    let i = choose|i: int|
                        0 <= i < init.len() && #[trigger] init[i] == (MetaItemModel {
                            name: key,
                            value: MetaValueModel::Text(t),
                        }) && forall|j: int| i < j < init.len() ==> !gives_text(init, key, j);
                    assert(items[i] == init[i]);
                },
                None => {},
            }
        }
    }
}

} // verus!
