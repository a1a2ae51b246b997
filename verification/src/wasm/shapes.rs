//! Heap shapes and their drop functions.
//!
//! Releasing the last reference to a block calls the drop function whose table
//! index sits in the block's header. One function is generated per distinct
//! heap shape; every allocation site knows its shape statically and stamps the
//! index at allocation time. A drop function releases the shape's child
//! pointers (each child dispatches through its own header) and frees the block
//! with its computed total size.

use vstd::prelude::*;

use super::layout::{
    block_total, capture_layout, capture_offset, closure_size, lemma_position_found, position,
    total_of, wasm_ty, WasmTy,
};
use crate::debug::{debug_ty, push_debug_type};
use crate::ir::{capture_binds, node_ty, nodes, Bind, IrCapture, IrExpr, Node};
use crate::ir_walk::refs;
use crate::strings::{chars_of, decimal, push_wide, same};
use crate::types::{heap, is_heap, Ty, Type};

verus! {

/// A heap shape with its own drop function.
#[derive(Debug)]
pub enum DropKey {
    /// Never dropped meaningfully: Result boxes (freed at unwrap) and
    /// host-built platform values, whose shape only the host knows.
    Leak,
    /// `[len][utf8]`: free only.
    String,
    /// `[len][elements]`: release the elements if they are pointers, then free.
    Array { stride: u128, heap_elems: bool },
    /// A tagged enum value, keyed by its mangled type name.
    Enum(String),
    /// A record of 8-byte slots; `mask` marks pointer slots.
    Record { mask: Vec<bool> },
    /// A closure environment: for each capture its offset and whether it is a
    /// pointer.
    Closure { slots: Vec<(u128, bool)>, size: u128 },
    /// A fixed-size block with no children. `total` includes the header.
    Plain { total: u128 },
}

/// What a [`DropKey`] says.
#[verifier::ext_equal]
pub enum Shape {
    Leak,
    String,
    Array { stride: nat, heap_elems: bool },
    Enum(Seq<char>),
    Record { mask: Seq<bool> },
    Closure { slots: Seq<(u128, bool)>, size: nat },
    Plain { total: nat },
}

impl DropKey {
    pub open spec fn view(&self) -> Shape {
        match self {
            DropKey::Leak => Shape::Leak,
            DropKey::String => Shape::String,
            DropKey::Array { stride, heap_elems } => Shape::Array {
                stride: *stride as nat,
                heap_elems: *heap_elems,
            },
            DropKey::Enum(name) => Shape::Enum(name@),
            DropKey::Record { mask } => Shape::Record { mask: mask@ },
            DropKey::Closure { slots, size } => Shape::Closure {
                slots: slots@,
                size: *size as nat,
            },
            DropKey::Plain { total } => Shape::Plain { total: *total as nat },
        }
    }

    /// Whether two shapes are the same.
    pub fn same_as(&self, other: &DropKey) -> (r: bool)
        ensures
            r == (self@ == other@),
    {
        match (self, other) {
            (DropKey::Leak, DropKey::Leak) => true,
            (DropKey::String, DropKey::String) => true,
            (
                DropKey::Array { stride: a, heap_elems: b },
                DropKey::Array { stride: c, heap_elems: d },
            ) => *a == *c && *b == *d,
            (DropKey::Enum(a), DropKey::Enum(b)) => same(a.as_str(), b.as_str()),
            (DropKey::Record { mask: a }, DropKey::Record { mask: b }) => same_mask(a, b),
            (
                DropKey::Closure { slots: a, size: b },
                DropKey::Closure { slots: c, size: d },
            ) => *b == *d && same_slots(a, c),
            (DropKey::Plain { total: a }, DropKey::Plain { total: b }) => *a == *b,
            _ => false,
        }
    }
}

fn same_mask(a: &Vec<bool>, b: &Vec<bool>) -> (r: bool)
    ensures
        r == (a@ == b@),
{
    if a.len() != b.len() {
        return false;
    }
    let mut i: usize = 0;
    while i < a.len()
        invariant
            i <= a.len(),
            a@.len() == b@.len(),
            forall|k: int| 0 <= k < i ==> a@[k] == b@[k],
        decreases a.len() - i,
    {
        if a[i] != b[i] {
            return false;
        }
        i += 1;
    }
    assert(a@ =~= b@);
    true
}

fn same_slots(a: &Vec<(u128, bool)>, b: &Vec<(u128, bool)>) -> (r: bool)
    ensures
        r == (a@ == b@),
{
    if a.len() != b.len() {
        return false;
    }
    let mut i: usize = 0;
    while i < a.len()
        invariant
            i <= a.len(),
            a@.len() == b@.len(),
            forall|k: int| 0 <= k < i ==> a@[k] == b@[k],
        decreases a.len() - i,
    {
        if a[i].0 != b[i].0 || a[i].1 != b[i].1 {
            return false;
        }
        i += 1;
    }
    assert(a@ =~= b@);
    true
}

impl DropKey {
    /// Whether a closure is of a size that a program can have.
    pub open spec fn bounded(&self) -> bool {
        self matches DropKey::Closure { size, .. } ==> size <= 0x100_0000_0000_0000_0000
    }
}

/// What a list of shapes says.
pub open spec fn shapes(s: Seq<DropKey>) -> Seq<Shape> {
    s.map_values(|k: DropKey| k@)
}

/// Which payload slots of an enum's variants are pointers, by tag.
#[derive(Debug)]
pub struct EnumTags {
    /// The mangled type name.
    pub name: String,
    /// In increasing order of the tags.
    pub tags: Vec<(u32, Vec<bool>)>,
}

/// What an [`EnumTags`] says.
#[verifier::ext_equal]
pub struct Tags {
    pub name: Seq<char>,
    pub tags: Seq<(u32, Seq<bool>)>,
}

/// What a list of tags says.
pub open spec fn tag_views(s: Seq<(u32, Vec<bool>)>) -> Seq<(u32, Seq<bool>)> {
    s.map_values(|t: (u32, Vec<bool>)| (t.0, t.1@))
}

impl EnumTags {
    pub open spec fn view(&self) -> Tags {
        Tags { name: self.name@, tags: tag_views(self.tags@) }
    }
}

/// What a list of enums says.
pub open spec fn enum_views(s: Seq<EnumTags>) -> Seq<Tags> {
    s.map_values(|t: EnumTags| t@)
}

/// The shapes of a program, in the order of their drop functions.
#[derive(Debug)]
pub struct DropTable {
    pub keys: Vec<DropKey>,
    pub enums: Vec<EnumTags>,
}

/// What a [`DropTable`] says.
#[verifier::ext_equal]
pub struct Drops {
    pub keys: Seq<Shape>,
    pub enums: Seq<Tags>,
}

impl DropTable {
    /// Whether every closure is of a size that a program can have.
    pub open spec fn wf(&self) -> bool {
        forall|i: int| 0 <= i < self.keys@.len() ==> (#[trigger] self.keys@[i]).bounded()
    }

    pub open spec fn view(&self) -> Drops {
        Drops { keys: shapes(self.keys@), enums: enum_views(self.enums@) }
    }
}

/// A letter or a digit.
pub open spec fn is_alphanumeric(c: char) -> bool {
    ('a' <= c && c <= 'z') || ('A' <= c && c <= 'Z') || ('0' <= c && c <= '9')
}

/// A text as a symbol fragment: alphanumerics kept, the rest `_`.
pub open spec fn symbol(s: Seq<char>) -> Seq<char> {
    s.map_values(
        |c: char|
            if is_alphanumeric(c) {
                c
            } else {
                '_'
            },
    )
}

/// Appends a text as a symbol fragment.
pub fn push_symbol(out: &mut String, s: &str)
    ensures
        final(out)@ == old(out)@ + symbol(s@),
{
    let chars = chars_of(s);
    let ghost all = symbol(s@);
    let mut i: usize = 0;
    assert(out@ =~= old(out)@ + all.take(0));
    while i < chars.len()
        invariant
            i <= chars.len(),
            chars@ == s@,
            all == symbol(s@),
            out@ == old(out)@ + all.take(i as int),
        decreases chars.len() - i,
    {
        let c: char = chars[i];
        if ('a' <= c && c <= 'z') || ('A' <= c && c <= 'Z') || ('0' <= c && c <= '9') {
            out.push(c);
        } else {
            out.push('_');
        }
        assert(out@ =~= old(out)@ + all.take(i + 1));
        i += 1;
    }
    assert(all.take(all.len() as int) =~= all);
}

/// A stable symbol fragment for a type.
pub open spec fn mangled(t: Ty) -> Seq<char> {
    symbol(debug_ty(Seq::empty(), t))
}

/// A stable symbol fragment for a type.
pub fn mangle(ty: &Type) -> (r: String)
    ensures
        r@ == mangled(ty@),
{
    let mut shown = String::new();
    assert(shown@ =~= Seq::<char>::empty());
    push_debug_type(&mut shown, ty);
    let mut out = String::new();
    push_symbol(&mut out, shown.as_str());
    assert(out@ =~= mangled(ty@));
    out
}

/// The shape of an array.
pub open spec fn array_shape(elem: Ty) -> Shape {
    Shape::Array { stride: wasm_ty(elem).bytes(), heap_elems: heap(elem) }
}

/// The shape of an array.
pub fn array_key(elem_ty: &Type) -> (r: DropKey)
    ensures
        r@ == array_shape(elem_ty@),
        r.bounded(),
{
    DropKey::Array { stride: WasmTy::of(elem_ty).size(), heap_elems: is_heap(elem_ty) }
}

/// Which values are pointers.
pub open spec fn pointer_mask(s: Seq<Node>) -> Seq<bool> {
    s.map_values(|n: Node| heap(node_ty(n)))
}

/// Which values are pointers.
pub fn mask_of(s: &Vec<IrExpr>) -> (r: Vec<bool>)
    ensures
        r@ == pointer_mask(nodes(s@)),
{
    let ghost all = nodes(s@);
    let mut out: Vec<bool> = Vec::new();
    let mut i: usize = 0;
    assert(all.len() == s@.len());
    while i < s.len()
        invariant
            i <= s.len(),
            all == nodes(s@),
            all.len() == s@.len(),
            out@.len() == i,
            forall|k: int| 0 <= k < i ==> #[trigger] out@[k] == heap(node_ty(all[k])),
        decreases s.len() - i,
    {
        assert(all[i as int] == s@[i as int]@);
        out.push(is_heap(&s[i].ty()));
        i += 1;
    }
    assert(out@ =~= pointer_mask(all));
    out
}

/// The shape of a closure.
pub open spec fn closure_shape(captures: Seq<Bind>) -> Shape {
    Shape::Closure {
        slots: Seq::new(
            captures.len(),
            |i: int| (capture_offset(captures, i) as u128, heap(captures[i].ty)),
        ),
        size: closure_size(captures),
    }
}

/// The shape of a closure.
pub fn closure_key(captures: &Vec<IrCapture>) -> (r: DropKey)
    ensures
        r@ == closure_shape(capture_binds(captures@)),
        r.bounded(),
{
    let ghost binds = capture_binds(captures@);
    let (offsets, size) = capture_layout(captures);
    let mut slots: Vec<(u128, bool)> = Vec::new();
    let mut i: usize = 0;
    while i < captures.len()
        invariant
            i <= captures.len(),
            binds == capture_binds(captures@),
            offsets@.len() == captures@.len(),
            forall|k: int|
                0 <= k < captures@.len() ==> #[trigger] offsets@[k] == capture_offset(binds, k),
            slots@.len() == i,
            forall|k: int|
                0 <= k < i ==> #[trigger] slots@[k] == (
                    capture_offset(binds, k) as u128,
                    heap(binds[k].ty),
                ),
        decreases captures.len() - i,
    {
        slots.push((offsets[i], is_heap(&captures[i].ty)));
        i += 1;
    }
    let r = DropKey::Closure { slots, size };
    assert(r@ =~= closure_shape(binds));
    r
}

/// One more shape, if it is new.
pub open spec fn with_shape(t: Drops, shape: Shape) -> Drops {
    if position(t.keys, shape) is Some {
        t
    } else {
        Drops { keys: t.keys.push(shape), ..t }
    }
}

/// A tag's mask, put in its place.
pub open spec fn put_tag(s: Seq<(u32, Seq<bool>)>, tag: u32, mask: Seq<bool>) -> Seq<(
    u32,
    Seq<bool>,
)>
    decreases s.len(),
{
    if s.len() == 0 || s.last().0 < tag {
        s.push((tag, mask))
    } else if s.last().0 == tag {
        s.drop_last().push((tag, mask))
    } else {
        put_tag(s.drop_last(), tag, mask).push(s.last())
    }
}

/// A tag's mask, put in the entry of its enum.
pub open spec fn put_enum(s: Seq<Tags>, name: Seq<char>, tag: u32, mask: Seq<bool>) -> Seq<Tags>
    decreases s.len(),
{
    if s.len() == 0 {
        seq![Tags { name, tags: seq![(tag, mask)] }]
    } else if s.last().name == name {
        s.drop_last().push(Tags { name, tags: put_tag(s.last().tags, tag, mask) })
    } else {
        put_enum(s.drop_last(), name, tag, mask).push(s.last())
    }
}

/// One more variant of an enum.
pub open spec fn with_tag(t: Drops, ty: Ty, tag: u32, mask: Seq<bool>) -> Drops {
    let noted = with_shape(t, Shape::Enum(mangled(ty)));
    Drops { enums: put_enum(noted.enums, mangled(ty), tag, mask), ..noted }
}

/// The shapes that an expression allocates.
pub open spec fn with_node(t: Drops, e: Node) -> Drops {
    match e {
        Node::Array { elem_ty, .. } => with_shape(t, array_shape(elem_ty)),
        Node::Intrinsic { name, ret, .. } => match ret {
            Ty::Array(elem) => if name == "array_push"@ {
                with_shape(t, array_shape(*elem))
            } else {
                t
            },
            _ => t,
        },
        Node::EnumValue { ty, tag, payload, .. } => with_tag(t, ty, tag, pointer_mask(payload)),
        Node::RecordValue { fields, .. } => with_shape(
            t,
            Shape::Record { mask: pointer_mask(fields) },
        ),
        Node::Fn { captures, .. } => with_shape(t, closure_shape(captures)),
        // As a value it becomes a captureless closure; in callee position no
        // closure is built and the entry goes unused.
        Node::FunctionRef { .. } => with_shape(t, Shape::Plain { total: 16 }),
        _ => t,
    }
}

/// The shapes that some expressions allocate. Always present: the placeholder
/// for untracked blocks, and strings.
pub open spec fn drops_of(s: Seq<Node>) -> Drops
    decreases s.len(),
{
    if s.len() == 0 {
        Drops { keys: seq![Shape::Leak, Shape::String], enums: Seq::empty() }
    } else {
        with_node(drops_of(s.drop_last()), s.last())
    }
}

fn tag_put(s: Vec<(u32, Vec<bool>)>, tag: u32, mask: Vec<bool>) -> (r: Vec<(u32, Vec<bool>)>)
    ensures
        tag_views(r@) == put_tag(tag_views(s@), tag, mask@),
    decreases s@.len(),
{
    let ghost was = tag_views(s@);
    let mut s = s;
    match s.pop() {
        Some(last) => {
            assert(was.last() == (last.0, last.1@));
            assert(was.drop_last() =~= tag_views(s@));
            if last.0 < tag {
                s.push(last);
                assert(tag_views(s@) =~= was);
                s.push((tag, mask));
                assert(tag_views(s@) =~= was.push((tag, mask@)));
                s
            } else if last.0 == tag {
                s.push((tag, mask));
                assert(tag_views(s@) =~= was.drop_last().push((tag, mask@)));
                s
            } else {
                let mut r = tag_put(s, tag, mask);
                let ghost before = tag_views(r@);
                r.push(last);
                assert(tag_views(r@) =~= before.push(was.last()));
                r
            }
        },
        None => {
            s.push((tag, mask));
            assert(tag_views(s@) =~= was.push((tag, mask@)));
            s
        },
    }
}

fn enum_put(s: Vec<EnumTags>, name: String, tag: u32, mask: Vec<bool>) -> (r: Vec<EnumTags>)
    ensures
        enum_views(r@) == put_enum(enum_views(s@), name@, tag, mask@),
    decreases s@.len(),
{
    let ghost was = enum_views(s@);
    let mut s = s;
    match s.pop() {
        Some(last) => {
            assert(was.last() == last@);
            assert(was.drop_last() =~= enum_views(s@));
            if same(last.name.as_str(), name.as_str()) {
                let next = EnumTags { name, tags: tag_put(last.tags, tag, mask) };
                s.push(next);
                assert(enum_views(s@) =~= was.drop_last().push(next@));
                s
            } else {
                let mut r = enum_put(s, name, tag, mask);
                let ghost before = enum_views(r@);
                r.push(last);
                assert(enum_views(r@) =~= before.push(last@));
                r
            }
        },
        None => {
            let mut tags: Vec<(u32, Vec<bool>)> = Vec::new();
            tags.push((tag, mask));
            assert(tag_views(tags@) =~= seq![(tag, mask@)]);
            let entry = EnumTags { name, tags };
            s.push(entry);
            assert(enum_views(s@) =~= seq![Tags { name: name@, tags: seq![(tag, mask@)] }]);
            s
        },
    }
}

/// The index of a shape.
pub fn find_shape(s: &Vec<DropKey>, x: &DropKey) -> (r: Option<usize>)
    ensures
        match r {
            Some(i) => position(shapes(s@), x@) == Some(i as nat) && i < s@.len(),
            None => position(shapes(s@), x@) is None,
        },
{
    let ghost all = shapes(s@);
    let mut i: usize = 0;
    assert(all.take(0).len() == 0);
    while i < s.len()
        invariant
            i <= s.len(),
            all == shapes(s@),
            position(all.take(i as int), x@) is None,
        decreases s.len() - i,
    {
        proof {
            assert(all.take(i + 1).drop_last() =~= all.take(i as int));
            assert(all.take(i + 1).last() == s@[i as int]@);
        }
        if s[i].same_as(x) {
            proof {
                lemma_position_found(all, x@, i + 1);
            }
            return Some(i);
        }
        i += 1;
    }
    assert(all.take(all.len() as int) =~= all);
    None
}

impl DropTable {
    fn put(&mut self, key: DropKey)
        requires
            old(self).wf(),
            key.bounded(),
        ensures
            final(self).wf(),
            final(self)@ == with_shape(old(self)@, key@),
    {
        if find_shape(&self.keys, &key).is_none() {
            self.keys.push(key);
            assert(shapes(self.keys@) =~= shapes(old(self).keys@).push(key@));
        }
    }

    fn put_variant(&mut self, ty: &Type, tag: u32, mask: Vec<bool>)
        requires
            old(self).wf(),
        ensures
            final(self).wf(),
            final(self)@ == with_tag(old(self)@, ty@, tag, mask@),
    {
        let name = mangle(ty);
        self.put(DropKey::Enum(name.clone()));
        let mut enums: Vec<EnumTags> = Vec::new();
        std::mem::swap(&mut self.enums, &mut enums);
        self.enums = enum_put(enums, name, tag, mask);
    }

    fn put_node(&mut self, e: &IrExpr)
        requires
            old(self).wf(),
        ensures
            final(self).wf(),
            final(self)@ == with_node(old(self)@, e@),
    {
        match e {
            IrExpr::Array { elem_ty, .. } => self.put(array_key(elem_ty)),
            IrExpr::Intrinsic { name, ret, .. } => {
                if let Type::Array(elem_ty) = ret {
                    if same(name.as_str(), "array_push") {
                        self.put(array_key(elem_ty));
                    }
                }
            },
            IrExpr::EnumValue { ty, tag, payload, .. } => {
                self.put_variant(ty, *tag, mask_of(payload))
            },
            IrExpr::RecordValue { fields, .. } => {
                self.put(DropKey::Record { mask: mask_of(fields) })
            },
            IrExpr::Fn { captures, .. } => self.put(closure_key(captures)),
            IrExpr::FunctionRef { .. } => self.put(DropKey::Plain { total: 16 }),
            _ => {},
        }
    }

    /// The shapes that some expressions allocate.
    pub fn build(nodes: &Vec<&IrExpr>) -> (r: DropTable)
        ensures
            r.wf(),
            r@ == drops_of(refs(nodes@)),
    {
        let ghost all = refs(nodes@);
        let mut keys: Vec<DropKey> = Vec::new();
        keys.push(DropKey::Leak);
        keys.push(DropKey::String);
        let mut table = DropTable { keys, enums: Vec::new() };
        let mut i: usize = 0;
        proof {
            assert(all.take(0).len() == 0);
            assert(table@ =~= drops_of(all.take(0)));
        }
        while i < nodes.len()
            invariant
                i <= nodes.len(),
                all == refs(nodes@),
                table.wf(),
                table@ == drops_of(all.take(i as int)),
            decreases nodes.len() - i,
        {
            table.put_node(nodes[i]);
            proof {
                assert(all.take(i + 1).drop_last() =~= all.take(i as int));
                assert(all.take(i + 1).last() == nodes@[i as int]@);
            }
            i += 1;
        }
        assert(all.take(all.len() as int) =~= all);
        table
    }
}

/// Pointer slots as digits.
pub open spec fn mask_text(mask: Seq<bool>) -> Seq<char> {
    mask.map_values(
        |m: bool|
            if m {
                '1'
            } else {
                '0'
            },
    )
}

fn push_mask(out: &mut String, mask: &Vec<bool>)
    ensures
        final(out)@ == old(out)@ + mask_text(mask@),
{
    let ghost all = mask_text(mask@);
    let mut i: usize = 0;
    assert(out@ =~= old(out)@ + all.take(0));
    while i < mask.len()
        invariant
            i <= mask.len(),
            all == mask_text(mask@),
            out@ == old(out)@ + all.take(i as int),
        decreases mask.len() - i,
    {
        if mask[i] {
            out.push('1');
        } else {
            out.push('0');
        }
        assert(out@ =~= old(out)@ + all.take(i + 1));
        i += 1;
    }
    assert(all.take(all.len() as int) =~= all);
}

/// The name of the drop function of shape `i`.
pub open spec fn drop_name(out: Seq<char>, shape: Shape, i: nat) -> Seq<char> {
    match shape {
        Shape::Leak => out + "$drop_leak"@,
        Shape::String => out + "$drop_string"@,
        Shape::Array { stride, heap_elems } => out + "$drop_array_"@ + decimal(stride) + (
        if heap_elems {
            "p"@
        } else {
            "v"@
        }),
        Shape::Enum(name) => out + "$drop_enum_"@ + name,
        Shape::Record { mask } => out + "$drop_record_"@ + mask_text(mask),
        Shape::Closure { .. } => out + "$drop_closure_"@ + decimal(i),
        Shape::Plain { total } => out + "$drop_plain_"@ + decimal(total),
    }
}

/// Appends the name of the drop function of shape `i`.
pub fn push_drop_name(out: &mut String, key: &DropKey, i: usize)
    ensures
        final(out)@ == drop_name(old(out)@, key@, i as nat),
{
    match key {
        DropKey::Leak => out.push_str("$drop_leak"),
        DropKey::String => out.push_str("$drop_string"),
        DropKey::Array { stride, heap_elems } => {
            out.push_str("$drop_array_");
            push_wide(out, *stride);
            out.push_str(
                if *heap_elems {
                    "p"
                } else {
                    "v"
                },
            );
        },
        DropKey::Enum(name) => {
            out.push_str("$drop_enum_");
            out.push_str(name.as_str());
        },
        DropKey::Record { mask } => {
            out.push_str("$drop_record_");
            push_mask(out, mask);
        },
        DropKey::Closure { .. } => {
            out.push_str("$drop_closure_");
            push_wide(out, i as u128);
        },
        DropKey::Plain { total } => {
            out.push_str("$drop_plain_");
            push_wide(out, *total);
        },
    }
}

/// Releases the pointer at an offset, in a function body.
pub open spec fn release_slot(out: Seq<char>, indent: Seq<char>, at: nat) -> Seq<char> {
    out + indent + "local.get $p i32.const "@ + decimal(at) + " i32.add i32.load call $rc_release\n"@
}

fn push_release_slot(out: &mut String, indent: &str, at: u128)
    ensures
        final(out)@ == release_slot(old(out)@, indent@, at as nat),
{
    out.push_str(indent);
    out.push_str("local.get $p i32.const ");
    push_wide(out, at);
    out.push_str(" i32.add i32.load call $rc_release\n");
}

/// Releases the pointer slots among the first `n`, each of 8 bytes from `base`
/// on.
pub open spec fn release_slots(out: Seq<char>, indent: Seq<char>, mask: Seq<bool>, base: nat, n: nat) -> Seq<char>
    decreases n,
{
    if n == 0 {
        out
    } else {
        let before = release_slots(out, indent, mask, base, (n - 1) as nat);
        if mask[n - 1] {
            release_slot(before, indent, (base + 8 * (n - 1)) as nat)
        } else {
            before
        }
    }
}

fn push_release_slots(out: &mut String, indent: &str, mask: &Vec<bool>, base: u64)
    ensures
        final(out)@ == release_slots(
            old(out)@,
            indent@,
            mask@,
            base as nat,
            mask@.len(),
        ),
{
    let mut i: usize = 0;
    while i < mask.len()
        invariant
            i <= mask.len(),
            out@ == release_slots(old(out)@, indent@, mask@, base as nat, i as nat),
        decreases mask.len() - i,
    {
        if mask[i] {
            push_release_slot(out, indent, base as u128 + 8 * (i as u128));
        }
        i += 1;
    }
}

/// Releases the pointer captures among the first `n`.
pub open spec fn release_captures(out: Seq<char>, slots: Seq<(u128, bool)>, n: nat) -> Seq<char>
    decreases n,
{
    if n == 0 {
        out
    } else {
        let before = release_captures(out, slots, (n - 1) as nat);
        if slots[n - 1].1 {
            release_slot(before, "    "@, slots[n - 1].0 as nat)
        } else {
            before
        }
    }
}

fn push_release_captures(out: &mut String, slots: &Vec<(u128, bool)>)
    ensures
        final(out)@ == release_captures(old(out)@, slots@, slots@.len()),
{
    let mut i: usize = 0;
    while i < slots.len()
        invariant
            i <= slots.len(),
            out@ == release_captures(old(out)@, slots@, i as nat),
        decreases slots.len() - i,
    {
        if slots[i].1 {
            push_release_slot(out, "    ", slots[i].0);
        }
        i += 1;
    }
}

/// The branch of an enum's drop function for one tag.
pub open spec fn tag_branch(out: Seq<char>, tag: u32, mask: Seq<bool>) -> Seq<char> {
    let opened = out + "    local.get $t i32.const "@ + decimal(tag as nat) + " i32.eq\n    if\n"@;
    let released = release_slots(opened, "      "@, mask, 8, mask.len());
    released + "      local.get $p i32.const "@ + decimal(block_total(8 + 8 * mask.len())) + " call $free\n      return\n    end\n"@
}

fn push_tag_branch(out: &mut String, tag: u32, mask: &Vec<bool>)
    ensures
        final(out)@ == tag_branch(old(out)@, tag, mask@),
{
    out.push_str("    local.get $t i32.const ");
    push_wide(out, tag as u128);
    out.push_str(" i32.eq\n    if\n");
    push_release_slots(out, "      ", mask, 8);
    out.push_str("      local.get $p i32.const ");
    push_wide(out, total_of(8 + 8 * (mask.len() as u128)));
    out.push_str(" call $free\n      return\n    end\n");
}

/// The branches for the first `n` tags.
pub open spec fn tag_branches(out: Seq<char>, tags: Seq<(u32, Seq<bool>)>, n: nat) -> Seq<char>
    decreases n,
{
    if n == 0 {
        out
    } else {
        tag_branch(tag_branches(out, tags, (n - 1) as nat), tags[n - 1].0, tags[n - 1].1)
    }
}

fn push_tag_branches(out: &mut String, tags: &Vec<(u32, Vec<bool>)>)
    ensures
        final(out)@ == tag_branches(old(out)@, tag_views(tags@), tags@.len()),
{
    let mut i: usize = 0;
    while i < tags.len()
        invariant
            i <= tags.len(),
            out@ == tag_branches(old(out)@, tag_views(tags@), i as nat),
        decreases tags.len() - i,
    {
        push_tag_branch(out, tags[i].0, &tags[i].1);
        i += 1;
    }
}

/// The tags of an enum.
pub open spec fn tags_of(s: Seq<Tags>, name: Seq<char>) -> Seq<(u32, Seq<bool>)>
    decreases s.len(),
{
    if s.len() == 0 {
        Seq::empty()
    } else if s.last().name == name {
        s.last().tags
    } else {
        tags_of(s.drop_last(), name)
    }
}

/// The branches for the tags of the enum called `name`.
pub open spec fn enum_branches(out: Seq<char>, s: Seq<Tags>, name: Seq<char>) -> Seq<char> {
    tag_branches(out, tags_of(s, name), tags_of(s, name).len())
}

fn push_enum_branches(out: &mut String, s: &Vec<EnumTags>, name: &str)
    ensures
        final(out)@ == enum_branches(old(out)@, enum_views(s@), name@),
{
    let ghost all = enum_views(s@);
    let mut i: usize = s.len();
    assert(all.take(all.len() as int) =~= all);
    while i > 0
        invariant
            i <= s.len(),
            all == enum_views(s@),
            out@ == old(out)@,
            tags_of(all, name@) == tags_of(all.take(i as int), name@),
        decreases i,
    {
        proof {
            assert(all.take(i as int).drop_last() =~= all.take(i - 1));
            assert(all.take(i as int).last() == s@[i - 1]@);
        }
        if same(s[i - 1].name.as_str(), name) {
            assert(tag_views(s@[i - 1].tags@).len() == s@[i - 1].tags@.len());
            push_tag_branches(out, &s[i - 1].tags);
            return;
        }
        i -= 1;
    }
}

/// The drop function of shape `i`.
pub open spec fn drop_function(out: Seq<char>, t: Drops, i: nat) -> Seq<char> {
    let shape = t.keys[i as int];
    let named = drop_name(out + "  (func "@, shape, i);
    match shape {
        Shape::Leak => named + " (param $p i32))\n"@,
        // The total is (len + 19) & -8: the length word and the header included.
        Shape::String => named + " (param $p i32)\n    local.get $p\n    local.get $p i32.load i32.const 19 i32.add i32.const -8 i32.and\n    call $free)\n"@,
        Shape::Array { stride, heap_elems } => {
            let opened = named + " (param $p i32)\n"@;
            let released = if heap_elems {
                opened + "    (local $i i32) (local $n i32)\n    local.get $p i32.load local.set $n\n    i32.const 0 local.set $i\n    block $done\n      loop $each\n        local.get $i local.get $n i32.ge_s br_if $done\n        local.get $p i32.const 4 i32.add local.get $i i32.const "@ + decimal(stride) + " i32.mul i32.add i32.load\n        call $rc_release\n        local.get $i i32.const 1 i32.add local.set $i\n        br $each\n      end\n    end\n"@
            } else {
                opened
            };
            released + "    local.get $p\n    local.get $p i32.load i32.const "@ + decimal(stride) + " i32.mul i32.const 19 i32.add i32.const -8 i32.and\n    call $free)\n"@
        },
        // A tag never constructed by the program cannot reach zero.
        Shape::Enum(name) => enum_branches(
            named
                + " (param $p i32) (local $t i32)\n    local.get $p i32.load local.set $t\n"@,
            t.enums,
            name,
        ) + "    unreachable)\n"@,
        Shape::Record { mask } => {
            let released = release_slots(
                named + " (param $p i32)\n"@,
                "    "@,
                mask,
                0,
                mask.len(),
            );
            released + "    local.get $p i32.const "@ + decimal(block_total(record_size(mask.len()))) + " call $free)\n"@
        },
        Shape::Closure { slots, size } => {
            let released = release_captures(named + " (param $p i32)\n"@, slots, slots.len());
            released + "    local.get $p i32.const "@ + decimal(block_total(size)) + " call $free)\n"@
        },
        Shape::Plain { total } => named + " (param $p i32)\n    local.get $p i32.const "@ + decimal(total) + " call $free)\n"@,
    }
}

/// The payload size of a record with `n` fields: one 8-byte slot per field, and
/// never nothing.
pub open spec fn record_size(n: nat) -> nat {
    if n == 0 {
        8
    } else {
        8 * n
    }
}

/// The payload size of a record with `n` fields.
pub fn size_of_record(n: usize) -> (r: u128)
    ensures
        r == record_size(n as nat),
{
    if n == 0 {
        8
    } else {
        8 * (n as u128)
    }
}

fn push_array_drop(out: &mut String, stride: u128, heap_elems: bool)
    ensures
        final(out)@ == ({
            let opened = old(out)@ + " (param $p i32)\n"@;
            let released = if heap_elems {
                opened + "    (local $i i32) (local $n i32)\n    local.get $p i32.load local.set $n\n    i32.const 0 local.set $i\n    block $done\n      loop $each\n        local.get $i local.get $n i32.ge_s br_if $done\n        local.get $p i32.const 4 i32.add local.get $i i32.const "@ + decimal(stride as nat) + " i32.mul i32.add i32.load\n        call $rc_release\n        local.get $i i32.const 1 i32.add local.set $i\n        br $each\n      end\n    end\n"@
            } else {
                opened
            };
            released + "    local.get $p\n    local.get $p i32.load i32.const "@ + decimal(stride as nat) + " i32.mul i32.const 19 i32.add i32.const -8 i32.and\n    call $free)\n"@
        }),
{
    out.push_str(" (param $p i32)\n");
    if heap_elems {
        out.push_str("    (local $i i32) (local $n i32)\n    local.get $p i32.load local.set $n\n    i32.const 0 local.set $i\n    block $done\n      loop $each\n        local.get $i local.get $n i32.ge_s br_if $done\n        local.get $p i32.const 4 i32.add local.get $i i32.const ");
        push_wide(out, stride);
        out.push_str(" i32.mul i32.add i32.load\n        call $rc_release\n        local.get $i i32.const 1 i32.add local.set $i\n        br $each\n      end\n    end\n");
    }
    out.push_str("    local.get $p\n    local.get $p i32.load i32.const ");
    push_wide(out, stride);
    out.push_str(" i32.mul i32.const 19 i32.add i32.const -8 i32.and\n    call $free)\n");
}

fn push_drop_function(out: &mut String, t: &DropTable, i: usize)
    requires
        i < t.keys@.len(),
        t.wf(),
    ensures
        final(out)@ == drop_function(old(out)@, t@, i as nat),
{
    assert(t@.keys[i as int] == t.keys@[i as int]@);
    out.push_str("  (func ");
    push_drop_name(out, &t.keys[i], i);
    match &t.keys[i] {
        DropKey::Leak => out.push_str(" (param $p i32))\n"),
        DropKey::String => {
            out.push_str(" (param $p i32)\n    local.get $p\n    local.get $p i32.load i32.const 19 i32.add i32.const -8 i32.and\n    call $free)\n");
        },
        DropKey::Array { stride, heap_elems } => push_array_drop(out, *stride, *heap_elems),
        DropKey::Enum(name) => {
            out.push_str(
                " (param $p i32) (local $t i32)\n    local.get $p i32.load local.set $t\n",
            );
            push_enum_branches(out, &t.enums, name.as_str());
            out.push_str("    unreachable)\n");
        },
        DropKey::Record { mask } => {
            out.push_str(" (param $p i32)\n");
            push_release_slots(out, "    ", mask, 0);
            out.push_str("    local.get $p i32.const ");
            push_wide(out, total_of(size_of_record(mask.len())));
            out.push_str(" call $free)\n");
        },
        DropKey::Closure { slots, size } => {
            out.push_str(" (param $p i32)\n");
            push_release_captures(out, slots);
            out.push_str("    local.get $p i32.const ");
            push_wide(out, total_of(*size));
            out.push_str(" call $free)\n");
        },
        DropKey::Plain { total } => {
            out.push_str(" (param $p i32)\n    local.get $p i32.const ");
            push_wide(out, *total);
            out.push_str(" call $free)\n");
        },
    }
}

/// The drop functions of the first `n` shapes.
pub open spec fn drop_functions(out: Seq<char>, t: Drops, n: nat) -> Seq<char>
    decreases n,
{
    if n == 0 {
        out
    } else {
        drop_function(drop_functions(out, t, (n - 1) as nat), t, (n - 1) as nat)
    }
}

/// Appends the drop functions.
pub fn push_drop_functions(out: &mut String, t: &DropTable)
    requires
        t.wf(),
    ensures
        final(out)@ == drop_functions(old(out)@, t@, t@.keys.len()),
{
    let mut i: usize = 0;
    while i < t.keys.len()
        invariant
            i <= t.keys.len(),
            t.wf(),
            out@ == drop_functions(old(out)@, t@, i as nat),
        decreases t.keys.len() - i,
    {
        push_drop_function(out, t, i);
        i += 1;
    }
    assert(t@.keys.len() == t.keys@.len());
}

} // verus!
