//! The declaration tree that the engine filters.
//!
//! A declaration is kept by what the engine reads of it: its annotations,
//! its visibility, the name of a module, and the parts it is made of. All
//! the rest of its syntax is text that the engine carries along untouched.

use vstd::prelude::*;

verus! {

/// How far a declaration can be seen.
#[derive(Debug, PartialEq, Eq)]
pub enum Visibility {
    /// Fully public.
    Public,
    /// Whatever holds where nothing is written.
    Inherited,
    /// Public within bounds, which the text gives as written.
    Restricted(String),
}

/// The mathematical content of a [`Visibility`].
pub enum VisibilityView {
    Public,
    Inherited,
    Restricted(Seq<char>),
}

impl View for Visibility {
    type V = VisibilityView;

    open spec fn view(&self) -> VisibilityView {
        match self {
            Visibility::Public => VisibilityView::Public,
            Visibility::Inherited => VisibilityView::Inherited,
            Visibility::Restricted(s) => VisibilityView::Restricted(s@),
        }
    }
}

impl Clone for Visibility {
    fn clone(&self) -> (res: Visibility)
        ensures
            res@ == self@,
    {
        match self {
            Visibility::Public => Visibility::Public,
            Visibility::Inherited => Visibility::Inherited,
            Visibility::Restricted(s) => Visibility::Restricted(s.clone()),
        }
    }
}

/// What follows the path of an annotation.
#[derive(Debug, PartialEq, Eq)]
pub enum Form {
    /// Nothing: the annotation is its path.
    Path,
    /// A list in brackets, by the text between them.
    List(String),
    /// An equals sign and a value, by the text of the value.
    NameValue(String),
}

/// The mathematical content of a [`Form`].
pub enum FormView {
    Path,
    List(Seq<char>),
    NameValue(Seq<char>),
}

impl View for Form {
    type V = FormView;

    open spec fn view(&self) -> FormView {
        match self {
            Form::Path => FormView::Path,
            Form::List(s) => FormView::List(s@),
            Form::NameValue(s) => FormView::NameValue(s@),
        }
    }
}

impl Clone for Form {
    fn clone(&self) -> (res: Form)
        ensures
            res@ == self@,
    {
        match self {
            Form::Path => Form::Path,
            Form::List(s) => Form::List(s.clone()),
            Form::NameValue(s) => Form::NameValue(s.clone()),
        }
    }
}

/// An annotation of a declaration or of one of its parts.
#[derive(Debug, PartialEq, Eq)]
pub struct Attribute {
    /// The path, written without blanks.
    pub path: String,
    /// What follows the path.
    pub form: Form,
    /// The handle under which places in this annotation are reported.
    pub origin: usize,
}

/// The mathematical content of an [`Attribute`].
pub struct AttributeView {
    pub path: Seq<char>,
    pub form: FormView,
    pub origin: usize,
}

impl View for Attribute {
    type V = AttributeView;

    open spec fn view(&self) -> AttributeView {
        AttributeView { path: self.path@, form: self.form@, origin: self.origin }
    }
}

impl Clone for Attribute {
    fn clone(&self) -> (res: Attribute)
        ensures
            res@ == self@,
    {
        Attribute { path: self.path.clone(), form: self.form.clone(), origin: self.origin }
    }
}

/// The models of `attrs`, in order.
pub open spec fn attributes_of(attrs: Seq<Attribute>) -> Seq<AttributeView> {
    Seq::new(attrs.len(), |i: int| attrs[i]@)
}

/// A part of a declaration that has no parts of its own: a field of a
/// struct or of a variant, or an item of a trait, an implementation or a
/// foreign block.
#[derive(Debug, PartialEq, Eq)]
pub struct Member {
    pub attrs: Vec<Attribute>,
    /// Everything but the annotations, as written.
    pub text: String,
}

/// The mathematical content of a [`Member`].
pub struct MemberView {
    pub attrs: Seq<AttributeView>,
    pub text: Seq<char>,
}

impl View for Member {
    type V = MemberView;

    open spec fn view(&self) -> MemberView {
        MemberView { attrs: attributes_of(self.attrs@), text: self.text@ }
    }
}

/// The models of `members`, in order.
pub open spec fn members_of(members: Seq<Member>) -> Seq<MemberView> {
    Seq::new(members.len(), |i: int| members[i]@)
}

/// How the fields of a struct or of a variant are written.
#[derive(Clone, Copy, Debug, PartialEq, Eq, Structural)]
pub enum Shape {
    /// In braces, each with a name.
    Named,
    /// In parentheses, by position.
    Unnamed,
    /// Not at all.
    Unit,
}

/// A variant of an enum.
#[derive(Debug, PartialEq, Eq)]
pub struct Variant {
    pub attrs: Vec<Attribute>,
    /// The name, as written.
    pub text: String,
    pub shape: Shape,
    pub fields: Vec<Member>,
    /// What follows the fields, as written: the discriminant, if any.
    pub tail: String,
}

/// The mathematical content of a [`Variant`].
pub struct VariantView {
    pub attrs: Seq<AttributeView>,
    pub text: Seq<char>,
    pub shape: Shape,
    pub fields: Seq<MemberView>,
    pub tail: Seq<char>,
}

impl View for Variant {
    type V = VariantView;

    open spec fn view(&self) -> VariantView {
        VariantView {
            attrs: attributes_of(self.attrs@),
            text: self.text@,
            shape: self.shape,
            fields: members_of(self.fields@),
            tail: self.tail@,
        }
    }
}

/// The models of `variants`, in order.
pub open spec fn variants_of(variants: Seq<Variant>) -> Seq<VariantView> {
    Seq::new(variants.len(), |i: int| variants[i]@)
}

/// What every declaration starts with.
#[derive(Debug, PartialEq, Eq)]
pub struct Header {
    pub attrs: Vec<Attribute>,
    /// The visibility, for the declarations that have one.
    pub vis: Option<Visibility>,
    /// What stands between the visibility and the parts, as written.
    pub text: String,
}

/// The mathematical content of a [`Header`].
pub struct HeaderView {
    pub attrs: Seq<AttributeView>,
    pub vis: Option<VisibilityView>,
    pub text: Seq<char>,
}

/// The model of a visibility that may be missing.
pub open spec fn visibility_of(vis: Option<Visibility>) -> Option<VisibilityView> {
    match vis {
        Some(v) => Some(v@),
        None => None,
    }
}

impl View for Header {
    type V = HeaderView;

    open spec fn view(&self) -> HeaderView {
        HeaderView {
            attrs: attributes_of(self.attrs@),
            vis: visibility_of(self.vis),
            text: self.text@,
        }
    }
}

/// One declaration.
#[derive(Debug, PartialEq, Eq)]
pub enum BodyItem {
    /// A module: a container of declarations, if it has a body.
    Module { header: Header, name: String, content: Option<Vec<BodyItem>> },
    /// A struct or a union, with its fields.
    Struct { header: Header, shape: Shape, fields: Vec<Member>, tail: String },
    /// An enum, with its variants.
    Enum { header: Header, variants: Vec<Variant> },
    /// A trait, an implementation or a foreign block, with its items. None
    /// of them can be made public by force; what a trait declares as its
    /// visibility is carried along.
    Block { header: Header, items: Vec<Member> },
    /// Any other declaration: a function, a constant, an import, an alias
    /// and so on. The engine never looks inside.
    Leaf { header: Header },
}

/// The mathematical content of a [`BodyItem`].
pub enum ItemView {
    Module { header: HeaderView, name: Seq<char>, content: Option<Seq<ItemView>> },
    Struct { header: HeaderView, shape: Shape, fields: Seq<MemberView>, tail: Seq<char> },
    Enum { header: HeaderView, variants: Seq<VariantView> },
    Block { header: HeaderView, items: Seq<MemberView> },
    Leaf { header: HeaderView },
}

impl ItemView {
    /// What the declaration starts with.
    pub open spec fn header(self) -> HeaderView {
        match self {
            ItemView::Module { header, .. } => header,
            ItemView::Struct { header, .. } => header,
            ItemView::Enum { header, .. } => header,
            ItemView::Block { header, .. } => header,
            ItemView::Leaf { header } => header,
        }
    }

    /// The declaration with `header` in place of its own.
    pub open spec fn with_header(self, header: HeaderView) -> ItemView {
        match self {
            ItemView::Module { name, content, .. } => ItemView::Module { header, name, content },
            ItemView::Struct { shape, fields, tail, .. } => ItemView::Struct {
                header,
                shape,
                fields,
                tail,
            },
            ItemView::Enum { variants, .. } => ItemView::Enum { header, variants },
            ItemView::Block { items, .. } => ItemView::Block { header, items },
            ItemView::Leaf { .. } => ItemView::Leaf { header },
        }
    }
}

impl BodyItem {
    /// The declaration as a value of the model.
    pub open spec fn model(self) -> ItemView
        decreases self, 0nat,
    {
        match self {
            BodyItem::Module { header, name, content } => ItemView::Module {
                header: header@,
                name: name@,
                content: match content {
                    None => None,
                    Some(items) => Some(items_of(items@)),
                },
            },
            BodyItem::Struct { header, shape, fields, tail } => ItemView::Struct {
                header: header@,
                shape,
                fields: members_of(fields@),
                tail: tail@,
            },
            BodyItem::Enum { header, variants } => ItemView::Enum {
                header: header@,
                variants: variants_of(variants@),
            },
            BodyItem::Block { header, items } => ItemView::Block {
                header: header@,
                items: members_of(items@),
            },
            BodyItem::Leaf { header } => ItemView::Leaf { header: header@ },
        }
    }
}

/// The models of `items`, in order.
pub open spec fn items_of(items: Seq<BodyItem>) -> Seq<ItemView>
    decreases items, 1nat,
{
    Seq::new(
        items.len(),
        |i: int|
            if 0 <= i < items.len() {
                items[i].model()
            } else {
                ItemView::Leaf {
                    header: HeaderView { attrs: Seq::empty(), vis: None, text: Seq::empty() },
                }
            },
    )
}

impl View for BodyItem {
    type V = ItemView;

    open spec fn view(&self) -> ItemView {
        self.model()
    }
}

fn copy_attributes(attrs: &Vec<Attribute>) -> (res: Vec<Attribute>)
    ensures
        attributes_of(res@) == attributes_of(attrs@),
{
    let mut res: Vec<Attribute> = Vec::new();
    let mut i: usize = 0;
    while i < attrs.len()
        invariant
            i <= attrs@.len(),
            res@.len() == i,
            forall|j: int| 0 <= j < i ==> res@[j]@ == attrs@[j]@,
        decreases attrs.len() - i,
    {
        res.push(attrs[i].clone());
        i += 1;
    }
    res
}

impl Clone for Member {
    fn clone(&self) -> (res: Member)
        ensures
            res@ == self@,
    {
        Member { attrs: copy_attributes(&self.attrs), text: self.text.clone() }
    }
}

fn copy_members(members: &Vec<Member>) -> (res: Vec<Member>)
    ensures
        members_of(res@) == members_of(members@),
{
    let mut res: Vec<Member> = Vec::new();
    let mut i: usize = 0;
    while i < members.len()
        invariant
            i <= members@.len(),
            res@.len() == i,
            forall|j: int| 0 <= j < i ==> res@[j]@ == members@[j]@,
        decreases members.len() - i,
    {
        res.push(members[i].clone());
        i += 1;
    }
    res
}

impl Clone for Variant {
    fn clone(&self) -> (res: Variant)
        ensures
            res@ == self@,
    {
        Variant {
            attrs: copy_attributes(&self.attrs),
            text: self.text.clone(),
            shape: self.shape,
            fields: copy_members(&self.fields),
            tail: self.tail.clone(),
        }
    }
}

fn copy_variants(variants: &Vec<Variant>) -> (res: Vec<Variant>)
    ensures
        variants_of(res@) == variants_of(variants@),
{
    let mut res: Vec<Variant> = Vec::new();
    let mut i: usize = 0;
    while i < variants.len()
        invariant
            i <= variants@.len(),
            res@.len() == i,
            forall|j: int| 0 <= j < i ==> res@[j]@ == variants@[j]@,
        decreases variants.len() - i,
    {
        res.push(variants[i].clone());
        i += 1;
    }
    res
}

impl Clone for Header {
    fn clone(&self) -> (res: Header)
        ensures
            res@ == self@,
    {
        Header {
            attrs: copy_attributes(&self.attrs),
            vis: match &self.vis {
                Some(v) => Some(v.clone()),
                None => None,
            },
            text: self.text.clone(),
        }
    }
}

impl Clone for BodyItem {
    fn clone(&self) -> (res: BodyItem)
        ensures
            res@ == self@,
    {
        copy_item(self)
    }
}

fn copy_item(item: &BodyItem) -> (res: BodyItem)
    ensures
        res@ == item@,
    decreases item, 0nat,
{
    match item {
        BodyItem::Module { header, name, content } => {
            let new_header = header.clone();
            let new_name = name.clone();
            let new_content = match content {
                Some(items) => Some(copy_items(items)),
                None => None,
            };
            BodyItem::Module { header: new_header, name: new_name, content: new_content }
        },
        BodyItem::Struct { header, shape, fields, tail } => BodyItem::Struct {
            header: header.clone(),
            shape: *shape,
            fields: copy_members(fields),
            tail: tail.clone(),
        },
        BodyItem::Enum { header, variants } => BodyItem::Enum {
            header: header.clone(),
            variants: copy_variants(variants),
        },
        BodyItem::Block { header, items } => BodyItem::Block {
            header: header.clone(),
            items: copy_members(items),
        },
        BodyItem::Leaf { header } => BodyItem::Leaf { header: header.clone() },
    }
}

fn copy_items(items: &Vec<BodyItem>) -> (res: Vec<BodyItem>)
    ensures
        items_of(res@) == items_of(items@),
    decreases items, 1nat,
{
    let mut res: Vec<BodyItem> = Vec::new();
    let mut i: usize = 0;
    while i < items.len()
        invariant
            i <= items@.len(),
            res@.len() == i,
            forall|j: int| 0 <= j < i ==> res@[j]@ == items@[j]@,
        decreases items.len() - i,
    {
        res.push(copy_item(&items[i]));
        i += 1;
    }
    res
}

impl BodyItem {
    /// What the declaration starts with.
    pub open spec fn header(self) -> Header {
        match self {
            BodyItem::Module { header, .. } => header,
            BodyItem::Struct { header, .. } => header,
            BodyItem::Enum { header, .. } => header,
            BodyItem::Block { header, .. } => header,
            BodyItem::Leaf { header } => header,
        }
    }

    /// The declaration with `header` in place of its own.
    pub open spec fn with_header(self, header: Header) -> BodyItem {
        match self {
            BodyItem::Module { name, content, .. } => BodyItem::Module { header, name, content },
            BodyItem::Struct { shape, fields, tail, .. } => BodyItem::Struct {
                header,
                shape,
                fields,
                tail,
            },
            BodyItem::Enum { variants, .. } => BodyItem::Enum { header, variants },
            BodyItem::Block { items, .. } => BodyItem::Block { header, items },
            BodyItem::Leaf { .. } => BodyItem::Leaf { header },
        }
    }

    /// The annotations of the declaration, to read or to change. Nothing
    /// else of the declaration changes with them.
    pub fn attrs_mut(&mut self) -> (res: &mut Vec<Attribute>)
        ensures
            *res == old(self).header().attrs,
            *final(self) == old(self).with_header(
                Header {
                    attrs: *final(res),
                    vis: old(self).header().vis,
                    text: old(self).header().text,
                },
            ),
    {
        match self {
            BodyItem::Module { header, .. } => &mut header.attrs,
            BodyItem::Struct { header, .. } => &mut header.attrs,
            BodyItem::Enum { header, .. } => &mut header.attrs,
            BodyItem::Block { header, .. } => &mut header.attrs,
            BodyItem::Leaf { header } => &mut header.attrs,
        }
    }

    /// The visibility of the declaration, to read or to change, if it has
    /// one. Nothing else of the declaration changes with it.
    pub fn vis_mut(&mut self) -> (res: Option<&mut Visibility>)
        ensures
            res is Some <==> old(self).header().vis is Some,
            res matches Some(v) ==> *v == old(self).header().vis->0 && *final(self) == old(
                self,
            ).with_header(
                Header {
                    attrs: old(self).header().attrs,
                    vis: Some(*final(v)),
                    text: old(self).header().text,
                },
            ),
            res is None ==> *final(self) == *old(self),
    {
        let header = match self {
            BodyItem::Module { header, .. } => header,
            BodyItem::Struct { header, .. } => header,
            BodyItem::Enum { header, .. } => header,
            BodyItem::Block { header, .. } => header,
            BodyItem::Leaf { header } => header,
        };
        match &mut header.vis {
            Some(v) => Some(v),
            None => None,
        }
    }
}

} // verus!
