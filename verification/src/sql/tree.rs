//! Syntax trees as plain values.
//!
//! A tree is the serialised form of a parsed statement: an enum variant is a
//! record with one field named after the variant (or just that name, where the
//! variant carries nothing), a struct is a record of its fields, and an absent
//! option is null.

use vstd::prelude::*;

use crate::text::same_text;

verus! {

/// One node of a syntax tree.
pub enum Tree {
    Null,
    Bool(bool),
    Number(String),
    Text(String),
    List(Vec<Tree>),
    Record(Vec<Field>),
}

/// One field of a record.
pub struct Field {
    pub name: String,
    pub value: Tree,
}

/// The value of a syntax tree.
pub enum TreeView {
    Null,
    Bool(bool),
    Number(Seq<char>),
    Text(Seq<char>),
    List(Seq<TreeView>),
    Record(Seq<FieldView>),
}

/// The value of a record field.
pub struct FieldView {
    pub name: Seq<char>,
    pub value: TreeView,
}

pub open spec fn tree_view(tree: Tree) -> TreeView
    decreases tree,
{
    match tree {
        Tree::Null => TreeView::Null,
        Tree::Bool(value) => TreeView::Bool(value),
        Tree::Number(text) => TreeView::Number(text@),
        Tree::Text(text) => TreeView::Text(text@),
        Tree::List(items) => TreeView::List(
            Seq::new(
                items@.len(),
                |i: int|
                    if 0 <= i < items@.len() {
                        tree_view(items@[i])
                    } else {
                        TreeView::Null
                    },
            ),
        ),
        Tree::Record(fields) => TreeView::Record(
            Seq::new(
                fields@.len(),
                |i: int|
                    if 0 <= i < fields@.len() {
                        FieldView { name: fields@[i].name@, value: tree_view(fields@[i].value) }
                    } else {
                        FieldView { name: Seq::empty(), value: TreeView::Null }
                    },
            ),
        ),
    }
}

impl View for Tree {
    type V = TreeView;

    open spec fn view(&self) -> TreeView {
        tree_view(*self)
    }
}

/// The values of a run of trees.
pub open spec fn trees_view(trees: Seq<Tree>) -> Seq<TreeView> {
    Seq::new(trees.len(), |i: int| trees[i]@)
}

/// The height of a tree: nothing for null, one more than the highest part
/// otherwise.
pub open spec fn height(tree: TreeView) -> nat
    decreases tree,
{
    match tree {
        TreeView::Null => 0,
        TreeView::List(items) => 1 + items_height(items),
        TreeView::Record(fields) => 1 + fields_height(fields),
        _ => 1,
    }
}

pub open spec fn items_height(items: Seq<TreeView>) -> nat
    decreases items,
{
    if items.len() == 0 {
        0
    } else {
        let rest = items_height(items.drop_last());
        let last = height(items.last());
        if last > rest {
            last
        } else {
            rest
        }
    }
}

pub open spec fn fields_height(fields: Seq<FieldView>) -> nat
    decreases fields,
{
    if fields.len() == 0 {
        0
    } else {
        let rest = fields_height(fields.drop_last());
        let last = height(fields.last().value);
        if last > rest {
            last
        } else {
            rest
        }
    }
}

/// An item is no higher than the highest of a run.
pub proof fn lemma_item_height(items: Seq<TreeView>, i: int)
    requires
        0 <= i < items.len(),
    ensures
        height(items[i]) <= items_height(items),
    decreases items.len(),
{
    if i < items.len() - 1 {
        lemma_item_height(items.drop_last(), i);
    }
}

proof fn lemma_field_height(fields: Seq<FieldView>, i: int)
    requires
        0 <= i < fields.len(),
    ensures
        height(fields[i].value) <= fields_height(fields),
    decreases fields.len(),
{
    if i < fields.len() - 1 {
        lemma_field_height(fields.drop_last(), i);
    }
}

/// The value of the first field with a name; null where there is none.
pub open spec fn find_field(fields: Seq<FieldView>, name: Seq<char>) -> TreeView
    decreases fields.len(),
{
    if fields.len() == 0 {
        TreeView::Null
    } else if fields[0].name == name {
        fields[0].value
    } else {
        find_field(fields.skip(1), name)
    }
}

/// Whether a field has a name.
pub open spec fn names_field(fields: Seq<FieldView>, name: Seq<char>) -> bool {
    exists|i: int| 0 <= i < fields.len() && (#[trigger] fields[i]).name == name
}

/// A field of a record; null for anything else.
pub open spec fn at(tree: TreeView, name: Seq<char>) -> TreeView {
    match tree {
        TreeView::Record(fields) => find_field(fields, name),
        _ => TreeView::Null,
    }
}

/// Whether a tree is the variant with a name.
pub open spec fn is(tree: TreeView, name: Seq<char>) -> bool {
    match tree {
        TreeView::Record(fields) => names_field(fields, name),
        TreeView::Text(text) => text == name,
        _ => false,
    }
}

/// The items of a list; none for anything else.
pub open spec fn list(tree: TreeView) -> Seq<TreeView> {
    match tree {
        TreeView::List(items) => items,
        _ => Seq::empty(),
    }
}

/// An item of a list; null where there is none.
pub open spec fn part(tree: TreeView, i: nat) -> TreeView {
    if i < list(tree).len() {
        list(tree)[i as int]
    } else {
        TreeView::Null
    }
}

/// The text of a text node; empty for anything else.
pub open spec fn word(tree: TreeView) -> Seq<char> {
    match tree {
        TreeView::Text(text) => text,
        _ => Seq::empty(),
    }
}

/// The truth value of a boolean node; false for anything else.
pub open spec fn flag(tree: TreeView) -> bool {
    match tree {
        TreeView::Bool(value) => value,
        _ => false,
    }
}

/// A part of a record is lower than the record.
pub broadcast proof fn lemma_at_height(tree: TreeView, name: Seq<char>)
    ensures
        #![trigger height(at(tree, name))]
        height(at(tree, name)) <= height(tree),
        !(tree is Null) ==> height(at(tree, name)) < height(tree),
{
    if tree is Record {
        let fields = tree->Record_0;
        lemma_find_height(fields, name);
    }
}

proof fn lemma_find_height(fields: Seq<FieldView>, name: Seq<char>)
    ensures
        height(find_field(fields, name)) <= fields_height(fields),
    decreases fields.len(),
{
    if fields.len() > 0 {
        if fields[0].name == name {
            lemma_field_height(fields, 0);
        } else {
            lemma_find_height(fields.skip(1), name);
            lemma_skip_height(fields);
        }
    }
}

proof fn lemma_skip_height(fields: Seq<FieldView>)
    requires
        fields.len() > 0,
    ensures
        fields_height(fields.skip(1)) <= fields_height(fields),
    decreases fields.len(),
{
    if fields.len() > 1 {
        lemma_skip_height(fields.drop_last());
        assert(fields.skip(1).drop_last() =~= fields.drop_last().skip(1));
    }
}

/// An item of a list is lower than the list.
pub broadcast proof fn lemma_list_height(tree: TreeView, i: int)
    requires
        0 <= i < list(tree).len(),
    ensures
        #![trigger height(list(tree)[i])]
        height(list(tree)[i]) < height(tree),
{
    lemma_item_height(tree->List_0, i);
}

pub broadcast group group_tree_heights {
    lemma_at_height,
    lemma_list_height,
}

impl Tree {
    /// The field of a record with a name; null where there is none.
    pub fn at(&self, name: &str) -> (value: &Tree)
        ensures
            value@ == at(self@, name@),
    {
        match self {
            Tree::Record(fields) => {
                let mut i: usize = 0;
                let ghost all = self@->Record_0;
                assert(all.skip(0) =~= all);
                while i < fields.len()
                    invariant
                        i <= fields.len(),
                        all.len() == fields.len(),
                        self@ == TreeView::Record(all),
                        forall|k: int|
                            0 <= k < all.len() ==> (#[trigger] all[k]) == (FieldView {
                                name: fields@[k].name@,
                                value: fields@[k].value@,
                            }),
                        find_field(all, name@) == find_field(all.skip(i as int), name@),
                    decreases fields.len() - i,
                {
                    assert(all.skip(i as int)[0] == all[i as int]);
                    if same_text(fields[i].name.as_str(), name) {
                        return &fields[i].value;
                    }
                    assert(all.skip(i as int).skip(1) =~= all.skip(i + 1));
                    i += 1;
                }
                &Tree::Null
            },
            _ => &Tree::Null,
        }
    }

    /// Whether the tree is the variant with a name.
    pub fn is(&self, name: &str) -> (yes: bool)
        ensures
            yes == is(self@, name@),
    {
        match self {
            Tree::Record(fields) => {
                let mut i: usize = 0;
                let ghost all = self@->Record_0;
                while i < fields.len()
                    invariant
                        i <= fields.len(),
                        all.len() == fields.len(),
                        self@ == TreeView::Record(all),
                        forall|k: int|
                            0 <= k < all.len() ==> (#[trigger] all[k]).name == fields@[k].name@,
                        forall|k: int| 0 <= k < i ==> (#[trigger] all[k]).name != name@,
                    decreases fields.len() - i,
                {
                    if same_text(fields[i].name.as_str(), name) {
                        assert(all[i as int].name == name@);
                        return true;
                    }
                    i += 1;
                }
                false
            },
            Tree::Text(text) => same_text(text.as_str(), name),
            _ => false,
        }
    }

    /// How many items a list holds.
    pub fn count(&self) -> (count: usize)
        ensures
            count == list(self@).len(),
    {
        match self {
            Tree::List(items) => items.len(),
            _ => 0,
        }
    }

    /// An item of a list.
    pub fn item(&self, i: usize) -> (value: &Tree)
        requires
            i < list(self@).len(),
        ensures
            value@ == list(self@)[i as int],
    {
        match self {
            Tree::List(items) => &items[i],
            _ => self,
        }
    }

    /// An item of a list; null where there is none.
    pub fn part(&self, i: usize) -> (value: &Tree)
        ensures
            value@ == part(self@, i as nat),
    {
        if i < self.count() {
            self.item(i)
        } else {
            &Tree::Null
        }
    }

    /// The text of a text node; empty for anything else.
    pub fn word(&self) -> (text: &str)
        ensures
            text@ == word(self@),
    {
        match self {
            Tree::Text(text) => text.as_str(),
            _ => {
                proof {
                    reveal_strlit("");
                }
                assert(""@ =~= Seq::<char>::empty());
                ""
            },
        }
    }

    /// The truth value of a boolean node; false for anything else.
    pub fn flag(&self) -> (value: bool)
        ensures
            value == flag(self@),
    {
        match self {
            Tree::Bool(value) => *value,
            _ => false,
        }
    }

    /// Whether the node is null.
    pub fn absent(&self) -> (yes: bool)
        ensures
            yes == (self@ is Null),
    {
        match self {
            Tree::Null => true,
            _ => false,
        }
    }
}

/// Whether a field only records where something stood in the source text.
pub open spec fn is_position(name: Seq<char>) -> bool {
    name == "span"@ || (name.len() >= "_token"@.len() && name.skip(name.len() - "_token"@.len())
        == "_token"@)
}

/// A tree without source positions. Two pieces of syntax are the same exactly
/// when they are equal without positions.
pub open spec fn bare(tree: TreeView) -> TreeView
    decreases tree,
{
    match tree {
        TreeView::List(items) => TreeView::List(
            Seq::new(
                items.len(),
                |i: int|
                    if 0 <= i < items.len() {
                        bare(items[i])
                    } else {
                        TreeView::Null
                    },
            ),
        ),
        TreeView::Record(fields) => TreeView::Record(bare_fields(fields)),
        other => other,
    }
}

pub open spec fn bare_fields(fields: Seq<FieldView>) -> Seq<FieldView>
    decreases fields,
{
    if fields.len() == 0 {
        Seq::empty()
    } else {
        let rest = bare_fields(fields.drop_last());
        let last = fields.last();
        if is_position(last.name) {
            rest
        } else {
            rest.push(FieldView { name: last.name, value: bare(last.value) })
        }
    }
}

/// Whether two trees are the same syntax, wherever they stood.
pub open spec fn same_syntax(left: TreeView, right: TreeView) -> bool {
    bare(left) == bare(right)
}

fn names_position(name: &str) -> (yes: bool)
    ensures
        yes == is_position(name@),
{
    proof {
        reveal_strlit("_token");
    }
    if same_text(name, "span") {
        return true;
    }
    let length = name.unicode_len();
    if length < 6 {
        return false;
    }
    let suffix = name.substring_char(length - 6, length);
    assert(name@.skip(name@.len() - 6) =~= name@.subrange(name@.len() - 6, name@.len() as int));
    same_text(suffix, "_token")
}

impl Tree {
    /// The tree without source positions.
    pub fn bare(&self) -> (result: Tree)
        ensures
            result@ == bare(self@),
        decreases self,
    {
        match self {
            Tree::Null => Tree::Null,
            Tree::Bool(value) => Tree::Bool(*value),
            Tree::Number(text) => Tree::Number(text.clone()),
            Tree::Text(text) => Tree::Text(text.clone()),
            Tree::List(items) => {
                let mut copies: Vec<Tree> = Vec::new();
                let mut i: usize = 0;
                while i < items.len()
                    invariant
                        i <= items.len(),
                        *self == Tree::List(*items),
                        copies.len() == i,
                        forall|k: int| 0 <= k < i ==> (#[trigger] copies@[k])@ == bare(items@[k]@),
                    decreases items.len() - i,
                {
                    let item = &items[i];
                    assert(decreases_to!(*self => self->List_0));
                    assert(decreases_to!(self->List_0 => self->List_0[i as int]));
                    copies.push(item.bare());
                    i += 1;
                }
                let result = Tree::List(copies);
                assert(result@->List_0 =~= bare(self@)->List_0);
                result
            },
            Tree::Record(fields) => {
                let mut copies: Vec<Field> = Vec::new();
                let mut i: usize = 0;
                let ghost all = self@->Record_0;
                assert(all.take(0) =~= Seq::empty());
                while i < fields.len()
                    invariant
                        i <= fields.len(),
                        *self == Tree::Record(*fields),
                        all.len() == fields.len(),
                        forall|k: int|
                            0 <= k < all.len() ==> (#[trigger] all[k]) == (FieldView {
                                name: fields@[k].name@,
                                value: fields@[k].value@,
                            }),
                        Tree::Record(copies)@->Record_0 == bare_fields(all.take(i as int)),
                    decreases fields.len() - i,
                {
                    let ghost before = Tree::Record(copies)@->Record_0;
                    assert(all.take(i + 1).drop_last() =~= all.take(i as int));
                    assert(all.take(i + 1).last() == all[i as int]);
                    if !names_position(fields[i].name.as_str()) {
                        let name = fields[i].name.clone();
                        let field = &fields[i];
                        assert(decreases_to!(*self => self->Record_0));
                        assert(decreases_to!(self->Record_0 => self->Record_0[i as int]));
                        let value = field.value.bare();
                        copies.push(Field { name, value });
                        assert(Tree::Record(copies)@->Record_0 =~= before.push(
                            FieldView { name: all[i as int].name, value: bare(all[i as int].value) },
                        ));
                    }
                    i += 1;
                }
                assert(all.take(i as int) =~= all);
                Tree::Record(copies)
            },
        }
    }

    /// Whether two trees are equal.
    pub fn same(&self, other: &Tree) -> (same: bool)
        ensures
            same == (self@ == other@),
        decreases self,
    {
        match (self, other) {
            (Tree::Null, Tree::Null) => true,
            (Tree::Bool(left), Tree::Bool(right)) => *left == *right,
            (Tree::Number(left), Tree::Number(right)) => same_text(left.as_str(), right.as_str()),
            (Tree::Text(left), Tree::Text(right)) => same_text(left.as_str(), right.as_str()),
            (Tree::List(left), Tree::List(right)) => {
                let ghost mine = self@->List_0;
                let ghost theirs = other@->List_0;
                if left.len() != right.len() {
                    assert(mine.len() != theirs.len());
                    return false;
                }
                let mut i: usize = 0;
                while i < left.len()
                    invariant
                        i <= left.len(),
                        left.len() == right.len(),
                        *self == Tree::List(*left),
                        *other == Tree::List(*right),
                        mine == self@->List_0,
                        theirs == other@->List_0,
                        forall|k: int| 0 <= k < i ==> mine[k] == theirs[k],
                    decreases left.len() - i,
                {
                    if !left[i].same(&right[i]) {
                        assert(mine[i as int] != theirs[i as int]);
                        return false;
                    }
                    i += 1;
                }
                assert(mine =~= theirs);
                true
            },
            (Tree::Record(left), Tree::Record(right)) => {
                let ghost mine = self@->Record_0;
                let ghost theirs = other@->Record_0;
                if left.len() != right.len() {
                    assert(mine.len() != theirs.len());
                    return false;
                }
                let mut i: usize = 0;
                while i < left.len()
                    invariant
                        i <= left.len(),
                        left.len() == right.len(),
                        *self == Tree::Record(*left),
                        *other == Tree::Record(*right),
                        mine == self@->Record_0,
                        theirs == other@->Record_0,
                        forall|k: int| 0 <= k < i ==> mine[k] == theirs[k],
                    decreases left.len() - i,
                {
                    if !same_text(left[i].name.as_str(), right[i].name.as_str())
                        || !left[i].value.same(&right[i].value) {
                        assert(mine[i as int] != theirs[i as int]);
                        return false;
                    }
                    i += 1;
                }
                assert(mine =~= theirs);
                true
            },
            _ => false,
        }
    }

    /// Whether two trees are the same syntax, wherever they stood.
    pub fn same_syntax(&self, other: &Tree) -> (same: bool)
        ensures
            same == same_syntax(self@, other@),
    {
        self.bare().same(&other.bare())
    }
}

} // verus!
