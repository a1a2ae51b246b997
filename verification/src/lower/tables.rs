//! Lookups in a program's declarations.

use vstd::prelude::*;

use crate::ast::{
    EnumDecl, EnumVariant, Extern, Function, ImplDecl, RecordDecl, RecordField, TraitDecl,
    TraitMethodSig,
};
use crate::strings::{no_text, same, texts};
use crate::subst::{type_head, type_head_key};
use crate::typed::Operator;
use crate::types::BinaryOp;

verus! {

/// The index of the last bodyless function called `name`.
pub open spec fn extern_named(s: Seq<Extern>, name: Seq<char>) -> Option<usize>
    decreases s.len(),
{
    if s.len() == 0 {
        None
    } else if s.last().name@ == name {
        Some((s.len() - 1) as usize)
    } else {
        extern_named(s.drop_last(), name)
    }
}

/// The index of the last bodyless function called `name`.
pub fn find_extern_named(s: &Vec<Extern>, name: &str) -> (r: Option<usize>)
    ensures
        r == extern_named(s@, name@),
        r matches Some(i) ==> i < s@.len(),
{
    let mut i: usize = s.len();
    assert(s@.take(s@.len() as int) =~= s@);
    while i > 0
        invariant
            i <= s.len(),
            extern_named(s@, name@) == extern_named(s@.take(i as int), name@),
        decreases i,
    {
        proof {
            assert(s@.take(i as int).drop_last() =~= s@.take(i - 1));
            assert(s@.take(i as int).last() == s@[i - 1]);
        }
        if same(s[i - 1].name.as_str(), name) {
            return Some(i - 1);
        }
        i -= 1;
    }
    None
}

/// The index of the last enum called `name`.
pub open spec fn enum_named(s: Seq<EnumDecl>, name: Seq<char>) -> Option<usize>
    decreases s.len(),
{
    if s.len() == 0 {
        None
    } else if s.last().name@ == name {
        Some((s.len() - 1) as usize)
    } else {
        enum_named(s.drop_last(), name)
    }
}

/// The index of the last enum called `name`.
pub fn find_enum_named(s: &Vec<EnumDecl>, name: &str) -> (r: Option<usize>)
    ensures
        r == enum_named(s@, name@),
        r matches Some(i) ==> i < s@.len(),
{
    let mut i: usize = s.len();
    assert(s@.take(s@.len() as int) =~= s@);
    while i > 0
        invariant
            i <= s.len(),
            enum_named(s@, name@) == enum_named(s@.take(i as int), name@),
        decreases i,
    {
        proof {
            assert(s@.take(i as int).drop_last() =~= s@.take(i - 1));
            assert(s@.take(i as int).last() == s@[i - 1]);
        }
        if same(s[i - 1].name.as_str(), name) {
            return Some(i - 1);
        }
        i -= 1;
    }
    None
}

/// The index of the last record called `name`.
pub open spec fn record_named(s: Seq<RecordDecl>, name: Seq<char>) -> Option<usize>
    decreases s.len(),
{
    if s.len() == 0 {
        None
    } else if s.last().name@ == name {
        Some((s.len() - 1) as usize)
    } else {
        record_named(s.drop_last(), name)
    }
}

/// The index of the last record called `name`.
pub fn find_record_named(s: &Vec<RecordDecl>, name: &str) -> (r: Option<usize>)
    ensures
        r == record_named(s@, name@),
        r matches Some(i) ==> i < s@.len(),
{
    let mut i: usize = s.len();
    assert(s@.take(s@.len() as int) =~= s@);
    while i > 0
        invariant
            i <= s.len(),
            record_named(s@, name@) == record_named(s@.take(i as int), name@),
        decreases i,
    {
        proof {
            assert(s@.take(i as int).drop_last() =~= s@.take(i - 1));
            assert(s@.take(i as int).last() == s@[i - 1]);
        }
        if same(s[i - 1].name.as_str(), name) {
            return Some(i - 1);
        }
        i -= 1;
    }
    None
}

/// The index of the first variant called `name`.
pub open spec fn variant_named(s: Seq<EnumVariant>, name: Seq<char>) -> Option<usize>
    decreases s.len(),
{
    if s.len() == 0 {
        None
    } else {
        match variant_named(s.drop_last(), name) {
            Some(i) => Some(i),
            None => if s.last().name@ == name {
                Some((s.len() - 1) as usize)
            } else {
                None
            },
        }
    }
}

proof fn lemma_variant_named(s: Seq<EnumVariant>, name: Seq<char>, k: int)
    requires
        0 <= k <= s.len(),
        variant_named(s.take(k), name) is Some,
    ensures
        variant_named(s, name) == variant_named(s.take(k), name),
    decreases s.len() - k,
{
    if k == s.len() {
        assert(s.take(k) =~= s);
    } else {
        assert(s.take(k + 1).drop_last() =~= s.take(k));
        lemma_variant_named(s, name, k + 1);
    }
}

/// The index of the first variant called `name`.
pub fn find_variant_named(s: &Vec<EnumVariant>, name: &str) -> (r: Option<usize>)
    ensures
        r == variant_named(s@, name@),
        r matches Some(i) ==> i < s@.len(),
{
    let mut i: usize = 0;
    assert(s@.take(0).len() == 0);
    while i < s.len()
        invariant
            i <= s.len(),
            variant_named(s@.take(i as int), name@) is None,
        decreases s.len() - i,
    {
        proof {
            assert(s@.take(i + 1).drop_last() =~= s@.take(i as int));
            assert(s@.take(i + 1).last() == s@[i as int]);
        }
        if same(s[i].name.as_str(), name) {
            proof {
                lemma_variant_named(s@, name@, i + 1);
            }
            return Some(i);
        }
        i += 1;
    }
    assert(s@.take(s@.len() as int) =~= s@);
    None
}

/// The index of the first field called `name`.
pub open spec fn field_named(s: Seq<RecordField>, name: Seq<char>) -> Option<usize>
    decreases s.len(),
{
    if s.len() == 0 {
        None
    } else {
        match field_named(s.drop_last(), name) {
            Some(i) => Some(i),
            None => if s.last().name@ == name {
                Some((s.len() - 1) as usize)
            } else {
                None
            },
        }
    }
}

proof fn lemma_field_named(s: Seq<RecordField>, name: Seq<char>, k: int)
    requires
        0 <= k <= s.len(),
        field_named(s.take(k), name) is Some,
    ensures
        field_named(s, name) == field_named(s.take(k), name),
    decreases s.len() - k,
{
    if k == s.len() {
        assert(s.take(k) =~= s);
    } else {
        assert(s.take(k + 1).drop_last() =~= s.take(k));
        lemma_field_named(s, name, k + 1);
    }
}

/// The index of the first field called `name`.
pub fn find_field_named(s: &Vec<RecordField>, name: &str) -> (r: Option<usize>)
    ensures
        r == field_named(s@, name@),
        r matches Some(i) ==> i < s@.len(),
{
    let mut i: usize = 0;
    assert(s@.take(0).len() == 0);
    while i < s.len()
        invariant
            i <= s.len(),
            field_named(s@.take(i as int), name@) is None,
        decreases s.len() - i,
    {
        proof {
            assert(s@.take(i + 1).drop_last() =~= s@.take(i as int));
            assert(s@.take(i + 1).last() == s@[i as int]);
        }
        if same(s[i].name.as_str(), name) {
            proof {
                lemma_field_named(s@, name@, i + 1);
            }
            return Some(i);
        }
        i += 1;
    }
    assert(s@.take(s@.len() as int) =~= s@);
    None
}

/// The index of the first method called `name`.
pub open spec fn method_named(s: Seq<Function>, name: Seq<char>) -> Option<usize>
    decreases s.len(),
{
    if s.len() == 0 {
        None
    } else {
        match method_named(s.drop_last(), name) {
            Some(i) => Some(i),
            None => if s.last().name@ == name {
                Some((s.len() - 1) as usize)
            } else {
                None
            },
        }
    }
}

proof fn lemma_method_named(s: Seq<Function>, name: Seq<char>, k: int)
    requires
        0 <= k <= s.len(),
        method_named(s.take(k), name) is Some,
    ensures
        method_named(s, name) == method_named(s.take(k), name),
    decreases s.len() - k,
{
    if k == s.len() {
        assert(s.take(k) =~= s);
    } else {
        assert(s.take(k + 1).drop_last() =~= s.take(k));
        lemma_method_named(s, name, k + 1);
    }
}

/// The index of the first method called `name`.
pub fn find_method_named(s: &Vec<Function>, name: &str) -> (r: Option<usize>)
    ensures
        r == method_named(s@, name@),
        r matches Some(i) ==> i < s@.len(),
{
    let mut i: usize = 0;
    assert(s@.take(0).len() == 0);
    while i < s.len()
        invariant
            i <= s.len(),
            method_named(s@.take(i as int), name@) is None,
        decreases s.len() - i,
    {
        proof {
            assert(s@.take(i + 1).drop_last() =~= s@.take(i as int));
            assert(s@.take(i + 1).last() == s@[i as int]);
        }
        if same(s[i].name.as_str(), name) {
            proof {
                lemma_method_named(s@, name@, i + 1);
            }
            return Some(i);
        }
        i += 1;
    }
    assert(s@.take(s@.len() as int) =~= s@);
    None
}

/// The index of the last method signature called `name`.
pub open spec fn signature_named(s: Seq<TraitMethodSig>, name: Seq<char>) -> Option<usize>
    decreases s.len(),
{
    if s.len() == 0 {
        None
    } else if s.last().name@ == name {
        Some((s.len() - 1) as usize)
    } else {
        signature_named(s.drop_last(), name)
    }
}

/// The index of the last method signature called `name`.
pub fn find_signature_named(s: &Vec<TraitMethodSig>, name: &str) -> (r: Option<usize>)
    ensures
        r == signature_named(s@, name@),
        r matches Some(i) ==> i < s@.len(),
{
    let mut i: usize = s.len();
    assert(s@.take(s@.len() as int) =~= s@);
    while i > 0
        invariant
            i <= s.len(),
            signature_named(s@, name@) == signature_named(s@.take(i as int), name@),
        decreases i,
    {
        proof {
            assert(s@.take(i as int).drop_last() =~= s@.take(i - 1));
            assert(s@.take(i as int).last() == s@[i - 1]);
        }
        if same(s[i - 1].name.as_str(), name) {
            return Some(i - 1);
        }
        i -= 1;
    }
    None
}

/// The index of the first variant with `n` fields.
pub open spec fn variant_of_size(s: Seq<EnumVariant>, n: usize) -> Option<usize>
    decreases s.len(),
{
    if s.len() == 0 {
        None
    } else {
        match variant_of_size(s.drop_last(), n) {
            Some(i) => Some(i),
            None => if s.last().fields@.len() == n {
                Some((s.len() - 1) as usize)
            } else {
                None
            },
        }
    }
}

proof fn lemma_variant_of_size(s: Seq<EnumVariant>, n: usize, k: int)
    requires
        0 <= k <= s.len(),
        variant_of_size(s.take(k), n) is Some,
    ensures
        variant_of_size(s, n) == variant_of_size(s.take(k), n),
    decreases s.len() - k,
{
    if k == s.len() {
        assert(s.take(k) =~= s);
    } else {
        assert(s.take(k + 1).drop_last() =~= s.take(k));
        lemma_variant_of_size(s, n, k + 1);
    }
}

/// The index of the first variant with `n` fields.
pub fn find_variant_of_size(s: &Vec<EnumVariant>, n: usize) -> (r: Option<usize>)
    ensures
        r == variant_of_size(s@, n),
        r matches Some(i) ==> i < s@.len(),
{
    let mut i: usize = 0;
    assert(s@.take(0).len() == 0);
    while i < s.len()
        invariant
            i <= s.len(),
            variant_of_size(s@.take(i as int), n) is None,
        decreases s.len() - i,
    {
        proof {
            assert(s@.take(i + 1).drop_last() =~= s@.take(i as int));
            assert(s@.take(i + 1).last() == s@[i as int]);
        }
        if s[i].fields.len() == n {
            proof {
                lemma_variant_of_size(s@, n, i + 1);
            }
            return Some(i);
        }
        i += 1;
    }
    assert(s@.take(s@.len() as int) =~= s@);
    None
}

/// The index of the first entry for `op`.
pub open spec fn operator_of(s: Seq<Operator>, op: BinaryOp) -> Option<usize>
    decreases s.len(),
{
    if s.len() == 0 {
        None
    } else {
        match operator_of(s.drop_last(), op) {
            Some(i) => Some(i),
            None => if s.last().op == op {
                Some((s.len() - 1) as usize)
            } else {
                None
            },
        }
    }
}

proof fn lemma_operator_of(s: Seq<Operator>, op: BinaryOp, k: int)
    requires
        0 <= k <= s.len(),
        operator_of(s.take(k), op) is Some,
    ensures
        operator_of(s, op) == operator_of(s.take(k), op),
    decreases s.len() - k,
{
    if k == s.len() {
        assert(s.take(k) =~= s);
    } else {
        assert(s.take(k + 1).drop_last() =~= s.take(k));
        lemma_operator_of(s, op, k + 1);
    }
}

/// The index of the first entry for `op`.
pub fn find_operator_of(s: &Vec<Operator>, op: BinaryOp) -> (r: Option<usize>)
    ensures
        r == operator_of(s@, op),
        r matches Some(i) ==> i < s@.len(),
{
    let mut i: usize = 0;
    assert(s@.take(0).len() == 0);
    while i < s.len()
        invariant
            i <= s.len(),
            operator_of(s@.take(i as int), op) is None,
        decreases s.len() - i,
    {
        proof {
            assert(s@.take(i + 1).drop_last() =~= s@.take(i as int));
            assert(s@.take(i + 1).last() == s@[i as int]);
        }
        if s[i].op == op {
            proof {
                lemma_operator_of(s@, op, i + 1);
            }
            return Some(i);
        }
        i += 1;
    }
    assert(s@.take(s@.len() as int) =~= s@);
    None
}

/// Whether an enum is tagged as the language's `Option`.
pub open spec fn is_option(d: EnumDecl) -> bool {
    d.lang_item matches Some(role) && role@ == "option"@
}

fn tagged_option(d: &EnumDecl) -> (r: bool)
    ensures
        r == is_option(*d),
{
    match &d.lang_item {
        Some(role) => same(role.as_str(), "option"),
        None => false,
    }
}

/// The index of the first enum tagged as the language's `Option`.
pub open spec fn option_enum(s: Seq<EnumDecl>) -> Option<usize>
    decreases s.len(),
{
    if s.len() == 0 {
        None
    } else {
        match option_enum(s.drop_last()) {
            Some(i) => Some(i),
            None => if is_option(s.last()) {
                Some((s.len() - 1) as usize)
            } else {
                None
            },
        }
    }
}

proof fn lemma_option_enum(s: Seq<EnumDecl>, k: int)
    requires
        0 <= k <= s.len(),
        option_enum(s.take(k)) is Some,
    ensures
        option_enum(s) == option_enum(s.take(k)),
    decreases s.len() - k,
{
    if k == s.len() {
        assert(s.take(k) =~= s);
    } else {
        assert(s.take(k + 1).drop_last() =~= s.take(k));
        lemma_option_enum(s, k + 1);
    }
}

/// The index of the first enum tagged as the language's `Option`.
pub fn find_option_enum(s: &Vec<EnumDecl>) -> (r: Option<usize>)
    ensures
        r == option_enum(s@),
        r matches Some(i) ==> i < s@.len(),
{
    let mut i: usize = 0;
    assert(s@.take(0).len() == 0);
    while i < s.len()
        invariant
            i <= s.len(),
            option_enum(s@.take(i as int)) is None,
        decreases s.len() - i,
    {
        proof {
            assert(s@.take(i + 1).drop_last() =~= s@.take(i as int));
            assert(s@.take(i + 1).last() == s@[i as int]);
        }
        if tagged_option(&s[i]) {
            proof {
                lemma_option_enum(s@, i + 1);
            }
            return Some(i);
        }
        i += 1;
    }
    assert(s@.take(s@.len() as int) =~= s@);
    None
}

/// The name of the first variant with `n` fields, or nothing.
pub open spec fn variant_name(d: EnumDecl, n: usize) -> Seq<char> {
    match variant_of_size(d.variants@, n) {
        Some(i) => d.variants@[i as int].name@,
        None => Seq::empty(),
    }
}

/// Whether `name` is the name of the first variant with `n` fields.
pub fn is_variant_name(d: &EnumDecl, n: usize, name: &str) -> (r: bool)
    ensures
        r == (name@ == variant_name(*d, n)),
{
    match find_variant_of_size(&d.variants, n) {
        Some(i) => same(name, d.variants[i].name.as_str()),
        None => {
            assert(name@.len() == 0 ==> name@ =~= Seq::<char>::empty());
            no_text(name)
        },
    }
}

/// The traits that declare a method called `name`.
pub open spec fn method_owners(s: Seq<TraitDecl>, name: Seq<char>) -> Seq<Seq<char>>
    decreases s.len(),
{
    if s.len() == 0 {
        Seq::empty()
    } else {
        let before = method_owners(s.drop_last(), name);
        if signature_named(s.last().methods@, name) is Some {
            before.push(s.last().name@)
        } else {
            before
        }
    }
}

/// The traits that declare a method called `name`.
pub fn owners_of(s: &Vec<TraitDecl>, name: &str) -> (r: Vec<String>)
    ensures
        texts(r@) == method_owners(s@, name@),
{
    let mut out: Vec<String> = Vec::new();
    let mut i: usize = 0;
    assert(s@.take(0).len() == 0);
    assert(texts(out@) =~= method_owners(s@.take(0), name@));
    while i < s.len()
        invariant
            i <= s.len(),
            texts(out@) == method_owners(s@.take(i as int), name@),
        decreases s.len() - i,
    {
        proof {
            assert(s@.take(i + 1).drop_last() =~= s@.take(i as int));
            assert(s@.take(i + 1).last() == s@[i as int]);
        }
        if find_signature_named(&s[i].methods, name).is_some() {
            let ghost before = texts(out@);
            out.push(s[i].name.clone());
            assert(texts(out@) =~= before.push(s@[i as int].name@));
        }
        i += 1;
    }
    assert(s@.take(s@.len() as int) =~= s@);
    out
}

/// The index of the last trait called `trait_name` that declares `method`.
pub open spec fn trait_declaring(s: Seq<TraitDecl>, trait_name: Seq<char>, method: Seq<char>) -> Option<usize>
    decreases s.len(),
{
    if s.len() == 0 {
        None
    } else if s.last().name@ == trait_name && signature_named(s.last().methods@, method) is Some {
        Some((s.len() - 1) as usize)
    } else {
        trait_declaring(s.drop_last(), trait_name, method)
    }
}

/// The index of the last trait called `trait_name` that declares `method`.
pub fn find_trait_declaring(s: &Vec<TraitDecl>, trait_name: &str, method: &str) -> (r: Option<usize>)
    ensures
        r == trait_declaring(s@, trait_name@, method@),
        r matches Some(i) ==> i < s@.len(),
{
    let mut i: usize = s.len();
    assert(s@.take(s@.len() as int) =~= s@);
    while i > 0
        invariant
            i <= s.len(),
            trait_declaring(s@, trait_name@, method@) == trait_declaring(s@.take(i as int), trait_name@, method@),
        decreases i,
    {
        proof {
            assert(s@.take(i as int).drop_last() =~= s@.take(i - 1));
            assert(s@.take(i as int).last() == s@[i - 1]);
        }
        if same(s[i - 1].name.as_str(), trait_name) && find_signature_named(&s[i - 1].methods, method).is_some() {
            return Some(i - 1);
        }
        i -= 1;
    }
    None
}

/// The declaration of a trait's method.
pub open spec fn trait_method(s: Seq<TraitDecl>, trait_name: Seq<char>, method: Seq<char>) -> Option<
    TraitMethodSig,
> {
    match trait_declaring(s, trait_name, method) {
        Some(i) => match signature_named(s[i as int].methods@, method) {
            Some(k) => Some(s[i as int].methods@[k as int]),
            None => None,
        },
        None => None,
    }
}

/// The declaration of a trait's method.
pub fn find_trait_method<'a>(s: &'a Vec<TraitDecl>, trait_name: &str, method: &str) -> (r: Option<
    &'a TraitMethodSig,
>)
    ensures
        match r {
            Some(m) => trait_method(s@, trait_name@, method@) == Some(*m),
            None => trait_method(s@, trait_name@, method@) is None,
        },
{
    match find_trait_declaring(s, trait_name, method) {
        Some(i) => match find_signature_named(&s[i].methods, method) {
            Some(k) => Some(&s[i].methods[k]),
            None => None,
        },
        None => None,
    }
}

fn has_head(d: &ImplDecl, key: &str) -> (r: bool)
    ensures
        r == (type_head(d.target@) == Some(key@)),
{
    match type_head_key(&d.target) {
        Some(head) => same(head.as_str(), key),
        None => false,
    }
}

/// The index of the last `impl` of a trait for a type with the head `key`.
pub open spec fn impl_for(s: Seq<ImplDecl>, trait_name: Seq<char>, key: Seq<char>) -> Option<usize>
    decreases s.len(),
{
    if s.len() == 0 {
        None
    } else if s.last().trait_name@ == trait_name && type_head(s.last().target@) == Some(key) {
        Some((s.len() - 1) as usize)
    } else {
        impl_for(s.drop_last(), trait_name, key)
    }
}

/// The index of the last `impl` of a trait for a type with the head `key`.
pub fn find_impl_for(s: &Vec<ImplDecl>, trait_name: &str, key: &str) -> (r: Option<usize>)
    ensures
        r == impl_for(s@, trait_name@, key@),
        r matches Some(i) ==> i < s@.len(),
{
    let mut i: usize = s.len();
    assert(s@.take(s@.len() as int) =~= s@);
    while i > 0
        invariant
            i <= s.len(),
            impl_for(s@, trait_name@, key@) == impl_for(s@.take(i as int), trait_name@, key@),
        decreases i,
    {
        proof {
            assert(s@.take(i as int).drop_last() =~= s@.take(i - 1));
            assert(s@.take(i as int).last() == s@[i - 1]);
        }
        if same(s[i - 1].trait_name.as_str(), trait_name) && has_head(&s[i - 1], key) {
            return Some(i - 1);
        }
        i -= 1;
    }
    None
}

} // verus!
