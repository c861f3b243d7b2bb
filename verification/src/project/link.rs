use vstd::prelude::*;
use vstd::string::StringSliceAdditionalSpecFns;

use crate::ast::Item;
use crate::span::Span;

verus! {

pub open spec fn fnv_offset_basis() -> u32 {
    0x811c9dc5u32
}

pub open spec fn fnv_prime() -> u32 {
    0x01000193u32
}

/// The 32-bit FNV-1a hash of `bytes`.
pub open spec fn fnv1a(bytes: Seq<u8>) -> u32
    decreases bytes.len(),
{
    if bytes.len() == 0 {
        fnv_offset_basis()
    } else {
        ((fnv1a(bytes.drop_last()) ^ (bytes.last() as u32)) as u32).wrapping_mul(fnv_prime())
    }
}

/// A hash of a module key that stays the same from one run to the next.
pub fn stable_name_hash(name: &str) -> (hash: u32)
    ensures
        hash == fnv1a(name.spec_bytes()),
{
    let bytes = name.as_bytes();
    let mut hash: u32 = 0x811c9dc5u32;
    let mut i: usize = 0;
    while i < bytes.len()
        invariant
            i <= bytes@.len(),
            hash == fnv1a(bytes@.take(i as int)),
        decreases bytes.len() - i,
    {
        assert(bytes@.take(i + 1).drop_last() =~= bytes@.take(i as int));
        hash = hash ^ (bytes[i] as u32);
        hash = hash.wrapping_mul(0x01000193u32);
        i = i + 1;
    }
    assert(bytes@.take(bytes@.len() as int) =~= bytes@);
    hash
}

/// The lowercase hexadecimal digit for `d`.
pub open spec fn hex_char(d: nat) -> char {
    if d < 10 {
        crate::text::digit_char(d)
    } else if d == 10 { 'a' } else if d == 11 { 'b' } else if d == 12 { 'c' } else if d == 13 { 'd' }
    else if d == 14 { 'e' } else { 'f' }
}

/// The last `width` hexadecimal digits of `value`, zero-padded.
pub open spec fn hex_fixed(value: nat, width: nat) -> Seq<char>
    decreases width,
{
    if width == 0 {
        seq![]
    } else {
        hex_fixed(value / 16, (width - 1) as nat) + seq![hex_char(value % 16)]
    }
}

fn hex_digit(d: u32) -> (text: &'static str)
    requires
        d < 16,
    ensures
        text@ == seq![hex_char(d as nat)],
{
    proof {
        reveal_strlit("0");
        reveal_strlit("1");
        reveal_strlit("2");
        reveal_strlit("3");
        reveal_strlit("4");
        reveal_strlit("5");
        reveal_strlit("6");
        reveal_strlit("7");
        reveal_strlit("8");
        reveal_strlit("9");
        reveal_strlit("a");
        reveal_strlit("b");
        reveal_strlit("c");
        reveal_strlit("d");
        reveal_strlit("e");
        reveal_strlit("f");
    }
    if d == 0 { "0" } else if d == 1 { "1" } else if d == 2 { "2" } else if d == 3 { "3" }
    else if d == 4 { "4" } else if d == 5 { "5" } else if d == 6 { "6" } else if d == 7 { "7" }
    else if d == 8 { "8" } else if d == 9 { "9" } else if d == 10 { "a" } else if d == 11 { "b" }
    else if d == 12 { "c" } else if d == 13 { "d" } else if d == 14 { "e" } else { "f" }
}

/// `value` as `width` lowercase hexadecimal digits (`{:08x}` for width 8).
pub fn hex_string(value: u32, width: u32) -> (text: String)
    ensures
        text@ == hex_fixed(value as nat, width as nat),
    decreases width,
{
    if width == 0 {
        String::new()
    } else {
        let mut text = hex_string(value / 16, width - 1);
        text.append(hex_digit(value % 16));
        text
    }
}

/// The internal name of a declaration `name` of the module keyed `module_key`.
pub fn qualified_name(module_key: &str, name: &str) -> (qualified: String)
    ensures
        qualified@ == "module_"@ + hex_fixed(fnv1a(module_key.spec_bytes()) as nat, 8) + "::"@
            + name@,
{
    let mut qualified = String::from_str("module_");
    qualified.append(hex_string(stable_name_hash(module_key), 8).as_str());
    qualified.append("::");
    qualified.append(name);
    qualified
}

/// The internal name of an extension function `name` of the module keyed `module_key`.
pub fn qualified_extension_name(module_key: &str, name: &str) -> (qualified: String)
    ensures
        qualified@ == "module_extension_"@ + hex_fixed(fnv1a(module_key.spec_bytes()) as nat, 8)
            + "::"@ + name@,
{
    let mut qualified = String::from_str("module_extension_");
    qualified.append(hex_string(stable_name_hash(module_key), 8).as_str());
    qualified.append("::");
    qualified.append(name);
    qualified
}

/// A name that a module declares, and whether it exports it.
pub struct ModuleDeclaration<'item> {
    pub name: &'item str,
    pub exported: bool,
    pub extension: bool,
    pub span: Span,
}

/// What an item declares: its name, whether it is exported, whether it is an
/// extension function, and its span.
pub type DeclarationView = (Seq<char>, bool, bool, Span);

/// The declaration that an item makes, if it makes one (see `item_declaration`).
pub open spec fn declaration_of(item: Item) -> Option<DeclarationView> {
    match item {
        Item::Enum(e) => Some((e.name@, e.exported, false, e.span)),
        Item::Struct(s) => Some((s.name@, s.exported, false, s.span)),
        Item::Trait(t) => Some((t.name@, t.exported, false, t.span)),
        Item::Function(f) => match f.name {
            Some(name) => Some((name@, f.exported, false, f.span)),
            None => None,
        },
        Item::Extension(e) => match e.function.name {
            Some(name) => Some((name@, e.exported, true, e.span)),
            None => None,
        },
        _ => None,
    }
}

/// The name that an item declares: enums, structs, traits, named functions and
/// extensions do; imports and impls do not.
pub fn item_declaration(item: &Item) -> (declaration: Option<ModuleDeclaration<'_>>)
    ensures
        declaration is None <==> declaration_of(*item) is None,
        declaration matches Some(d) ==> declaration_of(*item) == Some((d.name@, d.exported, d.extension, d.span)),
        declaration is Some <==> match item {
            Item::Enum(_) | Item::Struct(_) | Item::Trait(_) => true,
            Item::Function(f) => f.name is Some,
            Item::Extension(e) => e.function.name is Some,
            Item::Import(_) | Item::Impl(_) => false,
        },
        declaration matches Some(d) ==> match item {
            Item::Enum(e) => d.name@ == e.name@ && d.exported == e.exported && !d.extension && d.span
                == e.span,
            Item::Struct(s) => d.name@ == s.name@ && d.exported == s.exported && !d.extension
                && d.span == s.span,
            Item::Trait(t) => d.name@ == t.name@ && d.exported == t.exported && !d.extension
                && d.span == t.span,
            Item::Function(f) => d.name@ == f.name.unwrap()@ && d.exported == f.exported
                && !d.extension && d.span == f.span,
            Item::Extension(e) => d.name@ == e.function.name.unwrap()@ && d.exported == e.exported
                && d.extension && d.span == e.span,
            _ => false,
        },
{
    match item {
        Item::Enum(item) => Some(
            ModuleDeclaration { name: item.name.as_str(), exported: item.exported, extension: false, span: item.span },
        ),
        Item::Struct(item) => Some(
            ModuleDeclaration { name: item.name.as_str(), exported: item.exported, extension: false, span: item.span },
        ),
        Item::Trait(item) => Some(
            ModuleDeclaration { name: item.name.as_str(), exported: item.exported, extension: false, span: item.span },
        ),
        Item::Function(item) => match &item.name {
            Some(name) => Some(
                ModuleDeclaration { name: name.as_str(), exported: item.exported, extension: false, span: item.span },
            ),
            None => None,
        },
        Item::Extension(item) => match &item.function.name {
            Some(name) => Some(
                ModuleDeclaration { name: name.as_str(), exported: item.exported, extension: true, span: item.span },
            ),
            None => None,
        },
        Item::Import(_) | Item::Impl(_) => None,
    }
}

} // verus!
