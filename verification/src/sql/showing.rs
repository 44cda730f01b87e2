//! Which trees have a text.
//!
//! The parser's own text of syntax is written for what the parser builds. A tree
//! that reads back as syntax that the parser never builds need not have a text,
//! so trees are looked through before their text is asked for.

use vstd::prelude::*;

use crate::sql::tree;
use crate::sql::tree::{Field, FieldView, Tree, TreeView};
use crate::text::{characters, same_text};

verus! {

/// A mark that identifiers are quoted with.
pub open spec fn is_quote(character: char) -> bool {
    character == '"' || character == '\'' || character == '`' || character == '['
}

/// Whether a text is one quote mark.
pub open spec fn is_mark(text: Seq<char>) -> bool {
    text.len() == 1 && is_quote(text[0])
}

/// Whether an identifier's mark is none or known.
pub open spec fn mark_shown(value: TreeView) -> bool {
    match value {
        TreeView::Null => true,
        TreeView::Text(text) => is_mark(text),
        _ => false,
    }
}

/// Whether some field with a name holds something.
pub open spec fn holds(fields: Seq<FieldView>, name: Seq<char>) -> bool {
    exists|i: int|
        0 <= i < fields.len() && (#[trigger] fields[i]).name == name && !(fields[i].value is Null)
}

/// Whether every field with a name holds a text.
pub open spec fn all_texts(fields: Seq<FieldView>, name: Seq<char>) -> bool {
    forall|i: int|
        0 <= i < fields.len() && (#[trigger] fields[i]).name == name ==> fields[i].value is Text
}

/// Whether a word is not in single quotes, which mark strings and no words.
pub open spec fn word_shown(value: TreeView) -> bool {
    match value {
        TreeView::List(_) => false,
        TreeView::Record(fields) => forall|i: int|
            0 <= i < fields.len() && (#[trigger] fields[i]).name == "quote_style"@
                ==> fields[i].value != TreeView::Text("'"@),
        _ => true,
    }
}

/// Whether what a `TABLE` command holds names its table.
pub open spec fn names_table(value: TreeView) -> bool {
    match value {
        TreeView::Record(fields) => holds(fields, "table_name"@) && all_texts(
            fields,
            "table_name"@,
        ),
        _ => false,
    }
}

/// Whether a query body that is a `TABLE` command names its table.
pub open spec fn body_shown(value: TreeView) -> bool {
    match value {
        TreeView::Record(fields) => forall|i: int|
            0 <= i < fields.len() && (#[trigger] fields[i]).name == "Table"@ ==> names_table(
                fields[i].value,
            ),
        _ => true,
    }
}

/// Whether a field holds what fields of its name can.
pub open spec fn field_shown(field: FieldView) -> bool {
    if field.name == "quote_style"@ {
        mark_shown(field.value)
    } else if field.name == "Word"@ {
        word_shown(field.value)
    } else if field.name == "body"@ || field.name == "left"@ || field.name == "right"@ {
        body_shown(field.value)
    } else if field.name == "SetOperation"@ || field.name == "LimitOffset"@ {
        !(field.value is List)
    } else {
        true
    }
}

/// Whether some leading field is the second.
pub open spec fn leads_with_second(fields: Seq<FieldView>) -> bool {
    exists|i: int|
        0 <= i < fields.len() && (#[trigger] fields[i]).name == "leading_field"@ && tree::is(
            fields[i].value,
            "Second"@,
        )
}

/// An interval that leads with seconds in two precisions has no last field.
pub open spec fn interval_shown(fields: Seq<FieldView>) -> bool {
    !(leads_with_second(fields) && holds(fields, "leading_precision"@) && holds(
        fields,
        "last_field"@,
    ) && holds(fields, "fractional_seconds_precision"@))
}

/// Whether something may be an expression: one is its name, or what stands under it.
pub open spec fn is_expression(value: TreeView) -> bool {
    value is Text || value is Record
}

/// Whether there is a limit, and each that stands there is an expression.
pub open spec fn limited(fields: Seq<FieldView>) -> bool {
    &&& holds(fields, "limit"@)
    &&& forall|i: int|
        0 <= i < fields.len() && (#[trigger] fields[i]).name == "limit"@ ==> is_expression(
            fields[i].value,
        )
}

/// What is counted by keys is limited.
pub open spec fn limit_shown(fields: Seq<FieldView>) -> bool {
    (forall|i: int|
        0 <= i < fields.len() && (#[trigger] fields[i]).name == "limit_by"@ ==> tree::list(
            fields[i].value,
        ).len() == 0) || limited(fields)
}

/// Whether a list is none of the structures that have no text, written as the
/// list of their fields: an identifier in unknown quotes, an interval that leads
/// with seconds and has a last field, a query whose `TABLE` command names none.
pub open spec fn list_shown(items: Seq<TreeView>) -> bool {
    if items.len() == 3 {
        !(items[0] is Text && items[1] is Text && items[1]->Text_0.len() == 1 && !is_quote(
            items[1]->Text_0[0],
        ) && (items[2] is Record || items[2] is List))
    } else if items.len() == 5 {
        !(tree::is(items[1], "Second"@) && !(items[2] is Null) && !(items[3] is Null) && !(
        items[4] is Null))
    } else if items.len() == 10 {
        body_shown(items[1])
    } else {
        true
    }
}

/// Whether a tree has a text if it is syntax at all: no part of it is syntax that
/// the parser does not build.
pub open spec fn showable(tree: TreeView) -> bool
    decreases tree,
{
    match tree {
        TreeView::List(items) => {
            &&& list_shown(items)
            &&& forall|i: int| 0 <= i < items.len() ==> showable(#[trigger] items[i])
        },
        TreeView::Record(fields) => {
            &&& interval_shown(fields)
            &&& limit_shown(fields)
            &&& forall|i: int|
                0 <= i < fields.len() ==> field_shown(#[trigger] fields[i]) && showable(
                    fields[i].value,
                )
        },
        _ => true,
    }
}

// ---- the tests ----

/// The value of a run of fields.
pub open spec fn fields_view(fields: Seq<Field>) -> Seq<FieldView> {
    Seq::new(
        fields.len(),
        |i: int| FieldView { name: fields[i].name@, value: fields[i].value@ },
    )
}

fn is_one_quote(text: &str) -> (yes: bool)
    ensures
        yes == is_mark(text@),
{
    let letters = characters(text);
    letters.len() == 1 && (letters[0] == '"' || letters[0] == '\'' || letters[0] == '`'
        || letters[0] == '[')
}

fn has_shown_mark(value: &Tree) -> (yes: bool)
    ensures
        yes == mark_shown(value@),
{
    match value {
        Tree::Null => true,
        Tree::Text(text) => is_one_quote(text.as_str()),
        _ => false,
    }
}

fn some_holds(fields: &Vec<Field>, name: &str) -> (yes: bool)
    ensures
        yes == holds(fields_view(fields@), name@),
{
    let ghost all = fields_view(fields@);
    let mut i: usize = 0;
    while i < fields.len()
        invariant
            i <= fields.len(),
            all == fields_view(fields@),
            forall|k: int|
                0 <= k < i && (#[trigger] all[k]).name == name@ ==> all[k].value is Null,
        decreases fields.len() - i,
    {
        assert(all[i as int].name == fields@[i as int].name@);
        if same_text(fields[i].name.as_str(), name) && !fields[i].value.absent() {
            return true;
        }
        i += 1;
    }
    false
}

fn all_hold_text(fields: &Vec<Field>, name: &str) -> (yes: bool)
    ensures
        yes == all_texts(fields_view(fields@), name@),
{
    let ghost all = fields_view(fields@);
    let mut i: usize = 0;
    while i < fields.len()
        invariant
            i <= fields.len(),
            all == fields_view(fields@),
            forall|k: int|
                0 <= k < i && (#[trigger] all[k]).name == name@ ==> all[k].value is Text,
        decreases fields.len() - i,
    {
        assert(all[i as int].name == fields@[i as int].name@);
        let is_text = match &fields[i].value {
            Tree::Text(_) => true,
            _ => false,
        };
        if same_text(fields[i].name.as_str(), name) && !is_text {
            return false;
        }
        i += 1;
    }
    true
}

fn is_single_quote(value: &Tree) -> (yes: bool)
    ensures
        yes == (value@ == TreeView::Text("'"@)),
{
    match value {
        Tree::Text(text) => same_text(text.as_str(), "'"),
        _ => false,
    }
}

fn is_shown_word(value: &Tree) -> (yes: bool)
    ensures
        yes == word_shown(value@),
{
    match value {
        Tree::List(_) => false,
        Tree::Record(fields) => {
            let ghost all = fields_view(fields@);
            assert(all =~= value@->Record_0);
            let mut i: usize = 0;
            while i < fields.len()
                invariant
                    i <= fields.len(),
                    all == fields_view(fields@),
                    value@ == TreeView::Record(all),
                    forall|k: int|
                        0 <= k < i && (#[trigger] all[k]).name == "quote_style"@ ==> all[k].value
                            != TreeView::Text("'"@),
                decreases fields.len() - i,
            {
                assert(all[i as int].name == fields@[i as int].name@);
                if same_text(fields[i].name.as_str(), "quote_style") && is_single_quote(
                    &fields[i].value,
                ) {
                    return false;
                }
                i += 1;
            }
            true
        },
        _ => true,
    }
}

fn names_its_table(value: &Tree) -> (yes: bool)
    ensures
        yes == names_table(value@),
{
    match value {
        Tree::Record(fields) => {
            assert(fields_view(fields@) =~= value@->Record_0);
            some_holds(fields, "table_name") && all_hold_text(fields, "table_name")
        },
        _ => false,
    }
}

/// Whether a query body that is a `TABLE` command names its table.
pub fn is_shown_body(value: &Tree) -> (yes: bool)
    ensures
        yes == body_shown(value@),
{
    match value {
        Tree::Record(fields) => {
            let ghost all = fields_view(fields@);
            assert(all =~= value@->Record_0);
            let mut i: usize = 0;
            while i < fields.len()
                invariant
                    i <= fields.len(),
                    all == fields_view(fields@),
                    value@ == TreeView::Record(all),
                    forall|k: int|
                        0 <= k < i && (#[trigger] all[k]).name == "Table"@ ==> names_table(
                            all[k].value,
                        ),
                decreases fields.len() - i,
            {
                assert(all[i as int].name == fields@[i as int].name@);
                if same_text(fields[i].name.as_str(), "Table") && !names_its_table(
                    &fields[i].value,
                ) {
                    return false;
                }
                i += 1;
            }
            true
        },
        _ => true,
    }
}

fn is_shown_field(field: &Field) -> (yes: bool)
    ensures
        yes == field_shown(FieldView { name: field.name@, value: field.value@ }),
{
    let name = field.name.as_str();
    if same_text(name, "quote_style") {
        has_shown_mark(&field.value)
    } else if same_text(name, "Word") {
        is_shown_word(&field.value)
    } else if same_text(name, "body") || same_text(name, "left") || same_text(name, "right") {
        is_shown_body(&field.value)
    } else if same_text(name, "SetOperation") || same_text(name, "LimitOffset") {
        match &field.value {
            Tree::List(_) => false,
            _ => true,
        }
    } else {
        true
    }
}

fn has_leading_second(fields: &Vec<Field>) -> (yes: bool)
    ensures
        yes == leads_with_second(fields_view(fields@)),
{
    let ghost all = fields_view(fields@);
    let mut i: usize = 0;
    while i < fields.len()
        invariant
            i <= fields.len(),
            all == fields_view(fields@),
            forall|k: int|
                0 <= k < i && (#[trigger] all[k]).name == "leading_field"@ ==> !tree::is(
                    all[k].value,
                    "Second"@,
                ),
        decreases fields.len() - i,
    {
        assert(all[i as int].name == fields@[i as int].name@);
        if same_text(fields[i].name.as_str(), "leading_field") && fields[i].value.is("Second") {
            return true;
        }
        i += 1;
    }
    false
}

fn is_shown_interval(fields: &Vec<Field>) -> (yes: bool)
    ensures
        yes == interval_shown(fields_view(fields@)),
{
    !(has_leading_second(fields) && some_holds(fields, "leading_precision") && some_holds(
        fields,
        "last_field",
    ) && some_holds(fields, "fractional_seconds_precision"))
}

fn is_limited(fields: &Vec<Field>) -> (yes: bool)
    ensures
        yes == limited(fields_view(fields@)),
{
    if !some_holds(fields, "limit") {
        return false;
    }
    let ghost all = fields_view(fields@);
    let mut i: usize = 0;
    while i < fields.len()
        invariant
            i <= fields.len(),
            all == fields_view(fields@),
            holds(all, "limit"@),
            forall|k: int|
                0 <= k < i && (#[trigger] all[k]).name == "limit"@ ==> is_expression(all[k].value),
        decreases fields.len() - i,
    {
        assert(all[i as int].name == fields@[i as int].name@);
        let may_stand = match &fields[i].value {
            Tree::Text(_) => true,
            Tree::Record(_) => true,
            _ => false,
        };
        if same_text(fields[i].name.as_str(), "limit") && !may_stand {
            return false;
        }
        i += 1;
    }
    true
}

fn is_shown_limit(fields: &Vec<Field>) -> (yes: bool)
    ensures
        yes == limit_shown(fields_view(fields@)),
{
    if is_limited(fields) {
        return true;
    }
    let ghost all = fields_view(fields@);
    let mut i: usize = 0;
    while i < fields.len()
        invariant
            i <= fields.len(),
            all == fields_view(fields@),
            !limited(all),
            forall|k: int|
                0 <= k < i && (#[trigger] all[k]).name == "limit_by"@ ==> tree::list(
                    all[k].value,
                ).len() == 0,
        decreases fields.len() - i,
    {
        assert(all[i as int].name == fields@[i as int].name@);
        if same_text(fields[i].name.as_str(), "limit_by") && fields[i].value.count() > 0 {
            return false;
        }
        i += 1;
    }
    true
}

fn is_odd_identifier(items: &Vec<Tree>) -> (yes: bool)
    requires
        items.len() == 3,
    ensures
        yes == (items@[0]@ is Text && items@[1]@ is Text && items@[1]@->Text_0.len() == 1
            && !is_quote(items@[1]@->Text_0[0]) && (items@[2]@ is Record || items@[2]@ is List)),
{
    let named = match &items[0] {
        Tree::Text(_) => true,
        _ => false,
    };
    let odd = match &items[1] {
        Tree::Text(text) => characters(text.as_str()).len() == 1 && !is_one_quote(text.as_str()),
        _ => false,
    };
    let placed = match &items[2] {
        Tree::Record(_) => true,
        Tree::List(_) => true,
        _ => false,
    };
    named && odd && placed
}

fn is_shown_list(items: &Vec<Tree>) -> (yes: bool)
    ensures
        yes == list_shown(tree::trees_view(items@)),
{
    if items.len() == 3 {
        !is_odd_identifier(items)
    } else if items.len() == 5 {
        !(items[1].is("Second") && !items[2].absent() && !items[3].absent() && !items[4].absent())
    } else if items.len() == 10 {
        is_shown_body(&items[1])
    } else {
        true
    }
}

impl Tree {
    /// Whether the tree has a text if it is syntax at all.
    pub fn is_showable(&self) -> (yes: bool)
        ensures
            yes == showable(self@),
        decreases self,
    {
        match self {
            Tree::List(items) => {
                let ghost all = tree::trees_view(items@);
                assert(all =~= self@->List_0);
                if !is_shown_list(items) {
                    return false;
                }
                let mut i: usize = 0;
                while i < items.len()
                    invariant
                        i <= items.len(),
                        *self == Tree::List(*items),
                        all == tree::trees_view(items@),
                        self@ == TreeView::List(all),
                        list_shown(all),
                        forall|k: int| 0 <= k < i ==> showable(#[trigger] all[k]),
                    decreases items.len() - i,
                {
                    let item = &items[i];
                    assert(decreases_to!(*self => self->List_0));
                    assert(decreases_to!(self->List_0 => self->List_0[i as int]));
                    assert(all[i as int] == item@);
                    if !item.is_showable() {
                        assert(!showable(all[i as int]));
                        return false;
                    }
                    i += 1;
                }
                true
            },
            Tree::Record(fields) => {
                let ghost all = fields_view(fields@);
                assert(all =~= self@->Record_0);
                if !is_shown_interval(fields) || !is_shown_limit(fields) {
                    return false;
                }
                let mut i: usize = 0;
                while i < fields.len()
                    invariant
                        i <= fields.len(),
                        *self == Tree::Record(*fields),
                        all == fields_view(fields@),
                        self@ == TreeView::Record(all),
                        interval_shown(all),
                        limit_shown(all),
                        forall|k: int|
                            0 <= k < i ==> field_shown(#[trigger] all[k]) && showable(
                                all[k].value,
                            ),
                    decreases fields.len() - i,
                {
                    let field = &fields[i];
                    assert(decreases_to!(*self => self->Record_0));
                    assert(decreases_to!(self->Record_0 => self->Record_0[i as int]));
                    assert(all[i as int] == (FieldView { name: field.name@, value: field.value@ }));
                    if !is_shown_field(field) || !field.value.is_showable() {
                        return false;
                    }
                    i += 1;
                }
                true
            },
            _ => true,
        }
    }
}

} // verus!
