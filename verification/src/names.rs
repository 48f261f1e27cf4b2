//! Go naming rules: identifiers, reserved words, package names and the
//! packages generated code may import.

use vstd::prelude::*;
use crate::text::{is_ascii_alpha, is_ascii_digit, owned, push_char, starts_with, str_eq};

verus! {

/// Whether `c` may continue an ASCII identifier.
pub open spec fn is_ident_char(c: char) -> bool {
    is_ascii_alpha(c) || is_ascii_digit(c) || c == '_'
}

/// An ASCII identifier: a letter or underscore, then letters, digits and
/// underscores.
pub open spec fn plain_identifier(s: Seq<char>) -> bool {
    &&& s.len() > 0
    &&& (is_ascii_alpha(s[0]) || s[0] == '_')
    &&& forall|i: int| 1 <= i < s.len() ==> #[trigger] is_ident_char(s[i])
}

fn ident_char(c: char) -> (r: bool)
    ensures
        r == is_ident_char(c),
{
    ('a' <= c && c <= 'z') || ('A' <= c && c <= 'Z') || ('0' <= c && c <= '9') || c == '_'
}

pub fn is_plain_identifier(value: &str) -> (r: bool)
    ensures
        r == plain_identifier(value@),
{
    let n = value.unicode_len();
    if n == 0 {
        return false;
    }
    let first = value.get_char(0);
    if !(('a' <= first && first <= 'z') || ('A' <= first && first <= 'Z') || first == '_') {
        return false;
    }
    let mut i: usize = 1;
    while i < n
        invariant
            n == value@.len(),
            1 <= i <= n,
            forall|j: int| 1 <= j < i ==> #[trigger] is_ident_char(value@[j]),
        decreases n - i,
    {
        if !ident_char(value.get_char(i)) {
            return false;
        }
        i = i + 1;
    }
    true
}


pub const GO_IMPORT_PREFIX: &'static str = "go:";

pub const PRELUDE_PACKAGE: &'static str = "prelude";

pub const PRELUDE_PREFIX: &'static str = "prelude.";

pub const PRELUDE_ERROR_ID: &'static str = "prelude.error";

pub const GO_STDLIB_PKG: &'static str = "lisette";

pub const ADAPTER_TYPE_PREFIX: &'static str = "_lisAdapter_";

pub const TEST_HANDLE_PREFIX: &'static str = "_lisTest_";

pub const TEST_T_PARAM: &'static str = "_lisTest_t";

pub const TEST_CTX_PARAM: &'static str = "_lisTest_ctx";

pub const PRELUDE_IMPORT_PATH: &'static str = "github.com/ivov/lisette/prelude";

pub const TEST_PRELUDE_PACKAGE: &'static str = "**test_prelude";

pub const TESTKIT_IMPORT_PATH: &'static str = "github.com/ivov/lisette/prelude/testkit";

pub const TESTKIT_PKG: &'static str = "testkit";

/// Whether `id` names a Go package imported directly (`go:...`).
pub fn is_go_import(id: &str) -> (r: bool)
    ensures
        r == ("go:"@.len() <= id@.len() && id@.take("go:"@.len() as int) == "go:"@),
{
    starts_with(id, "go:")
}

/// The reserved generated-name prefix `go` starts with, if any.
pub fn reserved_prefix_of(go: &str) -> (r: Option<&'static str>)
    ensures
        match r {
            Some(p) => (p@ == "_lisAdapter_"@ || p@ == "_lisTest_"@) && p@.len() <= go@.len()
                && go@.take(p@.len() as int) == p@,
            None => !(go@.len() >= "_lisAdapter_"@.len() && go@.take("_lisAdapter_"@.len() as int)
                == "_lisAdapter_"@) && !(go@.len() >= "_lisTest_"@.len() && go@.take(
                "_lisTest_"@.len() as int,
            ) == "_lisTest_"@),
        },
        (go@.len() >= "_lisAdapter_"@.len() && go@.take("_lisAdapter_"@.len() as int)
            == "_lisAdapter_"@) ==> (r matches Some(p) && p@ == "_lisAdapter_"@),
{
    if starts_with(go, "_lisAdapter_") {
        Some("_lisAdapter_")
    } else if starts_with(go, "_lisTest_") {
        Some("_lisTest_")
    } else {
        None
    }
}

/// The index of the last `/` in `s`, or -1.
pub open spec fn last_slash(s: Seq<char>) -> int
    decreases s.len(),
{
    if s.len() == 0 {
        -1
    } else if s.last() == '/' {
        s.len() - 1
    } else {
        last_slash(s.drop_last())
    }
}

/// The last segment of a package path: what follows its last `/`.
pub open spec fn package_name_of(package: Seq<char>) -> Seq<char> {
    package.subrange(last_slash(package) + 1, package.len() as int)
}

pub fn go_package_name(package: &str) -> (r: &str)
    ensures
        r@ == package_name_of(package@),
{
    let n = package.unicode_len();
    let mut end = n;
    proof {
        assert(package@.subrange(0, n as int) =~= package@);
    }
    while end > 0 && package.get_char(end - 1) != '/'
        invariant
            end <= n,
            n == package@.len(),
            last_slash(package@.subrange(0, end as int)) == last_slash(package@),
        decreases end,
    {
        proof {
            assert(package@.subrange(0, end as int).drop_last() =~= package@.subrange(0, end - 1));
        }
        end = end - 1;
    }
    proof {
        if end > 0 {
            assert(package@.subrange(0, end as int).last() == package@[end - 1]);
        }
    }
    package.substring_char(end, n)
}

/// Whether `c` is replaced when a name becomes a package name.
pub open spec fn sanitized_char(c: char) -> char {
    if is_ident_char(c) { c } else { '_' }
}

/// Go's keywords.
pub open spec fn go_keyword(name: Seq<char>) -> bool {
    name == "break"@ || name == "case"@ || name == "chan"@ || name == "const"@ || name == "continue"@
        || name == "default"@ || name == "defer"@ || name == "else"@ || name == "fallthrough"@
        || name == "for"@ || name == "func"@ || name == "go"@ || name == "goto"@ || name == "if"@
        || name == "import"@ || name == "interface"@ || name == "map"@ || name == "package"@
        || name == "range"@ || name == "return"@ || name == "select"@ || name == "struct"@
        || name == "switch"@ || name == "type"@ || name == "var"@
}

/// Go's predeclared identifiers: types, constants, `nil`, and the built-in
/// functions.
pub open spec fn go_builtin(name: Seq<char>) -> bool {
    name == "any"@ || name == "bool"@ || name == "byte"@ || name == "comparable"@ || name
        == "complex64"@ || name == "complex128"@ || name == "error"@ || name == "float32"@ || name
        == "float64"@ || name == "int"@ || name == "int8"@ || name == "int16"@ || name == "int32"@
        || name == "int64"@ || name == "rune"@ || name == "string"@ || name == "uint"@ || name
        == "uint8"@ || name == "uint16"@ || name == "uint32"@ || name == "uint64"@ || name
        == "uintptr"@ || name == "true"@ || name == "false"@ || name == "iota"@ || name == "nil"@
        || name == "append"@ || name == "cap"@ || name == "clear"@ || name == "close"@ || name
        == "complex"@ || name == "copy"@ || name == "delete"@ || name == "imag"@ || name == "len"@
        || name == "make"@ || name == "max"@ || name == "min"@ || name == "new"@ || name == "panic"@
        || name == "print"@ || name == "println"@ || name == "real"@ || name == "recover"@
}

/// A word Go reserves: a keyword or a predeclared identifier.
pub open spec fn go_reserved_word(name: Seq<char>) -> bool {
    go_keyword(name) || go_builtin(name)
}

pub fn is_go_keyword(name: &str) -> (r: bool)
    ensures
        r == go_keyword(name@),
{
    str_eq(name, "break") || str_eq(name, "case") || str_eq(name, "chan") || str_eq(name, "const")
        || str_eq(name, "continue") || str_eq(name, "default") || str_eq(name, "defer") || str_eq(
        name,
        "else",
    ) || str_eq(name, "fallthrough") || str_eq(name, "for") || str_eq(name, "func") || str_eq(
        name,
        "go",
    ) || str_eq(name, "goto") || str_eq(name, "if") || str_eq(name, "import") || str_eq(
        name,
        "interface",
    ) || str_eq(name, "map") || str_eq(name, "package") || str_eq(name, "range") || str_eq(
        name,
        "return",
    ) || str_eq(name, "select") || str_eq(name, "struct") || str_eq(name, "switch") || str_eq(
        name,
        "type",
    ) || str_eq(name, "var")
}

pub fn is_go_builtin(name: &str) -> (r: bool)
    ensures
        r == go_builtin(name@),
{
    str_eq(name, "any") || str_eq(name, "bool") || str_eq(name, "byte") || str_eq(name, "comparable")
        || str_eq(name, "complex64") || str_eq(name, "complex128") || str_eq(name, "error")
        || str_eq(name, "float32") || str_eq(name, "float64") || str_eq(name, "int") || str_eq(
        name,
        "int8",
    ) || str_eq(name, "int16") || str_eq(name, "int32") || str_eq(name, "int64") || str_eq(
        name,
        "rune",
    ) || str_eq(name, "string") || str_eq(name, "uint") || str_eq(name, "uint8") || str_eq(
        name,
        "uint16",
    ) || str_eq(name, "uint32") || str_eq(name, "uint64") || str_eq(name, "uintptr") || str_eq(
        name,
        "true",
    ) || str_eq(name, "false") || str_eq(name, "iota") || str_eq(name, "nil") || str_eq(
        name,
        "append",
    ) || str_eq(name, "cap") || str_eq(name, "clear") || str_eq(name, "close") || str_eq(
        name,
        "complex",
    ) || str_eq(name, "copy") || str_eq(name, "delete") || str_eq(name, "imag") || str_eq(
        name,
        "len",
    ) || str_eq(name, "make") || str_eq(name, "max") || str_eq(name, "min") || str_eq(name, "new")
        || str_eq(name, "panic") || str_eq(name, "print") || str_eq(name, "println") || str_eq(
        name,
        "real",
    ) || str_eq(name, "recover")
}

pub fn is_go_reserved_word(name: &str) -> (r: bool)
    ensures
        r == go_reserved_word(name@),
{
    is_go_keyword(name) || is_go_builtin(name)
}

/// A name no generated package may take.
pub open spec fn reserved_package_name(name: Seq<char>) -> bool {
    name == "main"@ || name == "documentation"@ || go_reserved_word(name)
}

pub fn is_reserved_package_name(name: &str) -> (r: bool)
    ensures
        r == reserved_package_name(name@),
{
    str_eq(name, "main") || str_eq(name, "documentation") || is_go_reserved_word(name)
}

/// The characters of `name` made identifier-safe, with a leading `_` when
/// that would start with a digit.
pub open spec fn identifier_chars(name: Seq<char>) -> Seq<char> {
    let mapped = name.map_values(|c: char| sanitized_char(c));
    if mapped.len() > 0 && is_ascii_digit(mapped[0]) {
        seq!['_'] + mapped
    } else {
        mapped
    }
}

/// The Go package name for `name`: unchanged when it is empty or an
/// identifier and not reserved; otherwise identifier-safe, and with a `_`
/// appended when still reserved.
pub open spec fn sanitized_package_name(name: Seq<char>) -> Seq<char> {
    if (name.len() == 0 || plain_identifier(name)) && !reserved_package_name(name) {
        name
    } else {
        let chars = identifier_chars(name);
        if reserved_package_name(chars) {
            chars.push('_')
        } else {
            chars
        }
    }
}

pub fn sanitize_package_name(name: &str) -> (r: String)
    ensures
        r@ == sanitized_package_name(name@),
{
    if (name.unicode_len() == 0 || is_plain_identifier(name)) && !is_reserved_package_name(name) {
        return owned(name);
    }
    let n = name.unicode_len();
    let ghost mapped = name@.map_values(|c: char| sanitized_char(c));
    let mut result = String::new();
    let mut i: usize = 0;
    while i < n
        invariant
            n == name@.len(),
            i <= n,
            mapped == name@.map_values(|c: char| sanitized_char(c)),
            result@ == mapped.take(i as int),
        decreases n - i,
    {
        let c = name.get_char(i);
        let safe = if ident_char(c) {
            c
        } else {
            '_'
        };
        push_char(&mut result, safe);
        assert(mapped.take(i + 1) =~= mapped.take(i as int).push(sanitized_char(c)));
        i = i + 1;
    }
    assert(mapped.take(n as int) =~= mapped);
    if n > 0 {
        let first = name.get_char(0);
        let first_safe = if ident_char(first) {
            first
        } else {
            '_'
        };
        if '0' <= first_safe && first_safe <= '9' {
            let mut prefixed = String::new();
            push_char(&mut prefixed, '_');
            prefixed.append(result.as_str());
            result = prefixed;
        }
    }
    assert(result@ == identifier_chars(name@));
    if is_reserved_package_name(result.as_str()) {
        push_char(&mut result, '_');
    }
    result
}

/// The Go builtins the prelude re-exposes under their own names.
pub open spec fn prelude_builtin_name(name: Seq<char>) -> bool {
    name == "complex"@ || name == "max"@ || name == "min"@ || name == "panic"@ || name == "real"@
}

fn is_prelude_builtin_name(name: &str) -> (r: bool)
    ensures
        r == prelude_builtin_name(name@),
{
    str_eq(name, "complex") || str_eq(name, "max") || str_eq(name, "min") || str_eq(name, "panic")
        || str_eq(name, "real")
}

/// Whether `qualified_name` is `prelude.` followed by one of the re-exposed
/// Go builtins.
pub fn is_prelude_go_builtin(qualified_name: &str) -> (r: bool)
    ensures
        r == ("prelude."@.len() <= qualified_name@.len() && qualified_name@.take("prelude."@.len() as int)
            == "prelude."@ && prelude_builtin_name(qualified_name@.skip("prelude."@.len() as int))),
{
    if !starts_with(qualified_name, "prelude.") {
        return false;
    }
    proof {
        reveal_strlit("prelude.");
    }
    let rest = qualified_name.substring_char(8, qualified_name.unicode_len());
    assert(rest@ =~= qualified_name@.skip("prelude."@.len() as int));
    is_prelude_builtin_name(rest)
}

/// A package that generated code may import on its own behalf.
#[derive(Clone, Copy, PartialEq, Eq, Structural)]
pub enum GeneratedPackage {
    Prelude,
    Fmt,
    Errors,
    Slices,
    Strings,
    Maps,
    Json,
    Cmp,
    TestKit,
    Testing,
}

/// The import path of a generated package.
pub open spec fn package_path(p: GeneratedPackage) -> Seq<char> {
    match p {
        GeneratedPackage::Prelude => "github.com/ivov/lisette/prelude"@,
        GeneratedPackage::Fmt => "fmt"@,
        GeneratedPackage::Errors => "errors"@,
        GeneratedPackage::Slices => "slices"@,
        GeneratedPackage::Strings => "strings"@,
        GeneratedPackage::Maps => "maps"@,
        GeneratedPackage::Json => "encoding/json"@,
        GeneratedPackage::Cmp => "cmp"@,
        GeneratedPackage::TestKit => "github.com/ivov/lisette/prelude/testkit"@,
        GeneratedPackage::Testing => "testing"@,
    }
}

/// The name generated code qualifies a generated package's members with.
pub open spec fn package_qualifier(p: GeneratedPackage) -> Seq<char> {
    match p {
        GeneratedPackage::Prelude => "lisette"@,
        GeneratedPackage::Fmt => "fmt"@,
        GeneratedPackage::Errors => "errors"@,
        GeneratedPackage::Slices => "slices"@,
        GeneratedPackage::Strings => "strings"@,
        GeneratedPackage::Maps => "maps"@,
        GeneratedPackage::Json => "json"@,
        GeneratedPackage::Cmp => "cmp"@,
        GeneratedPackage::TestKit => "testkit"@,
        GeneratedPackage::Testing => "testing"@,
    }
}

impl GeneratedPackage {
    /// Every generated package, in declaration order.
    pub fn all() -> (r: Vec<GeneratedPackage>)
        ensures
            forall|p: GeneratedPackage| #[trigger] r@.contains(p),
            r@.len() == 10,
    {
        let mut r = Vec::new();
        r.push(GeneratedPackage::Prelude);
        r.push(GeneratedPackage::Fmt);
        r.push(GeneratedPackage::Errors);
        r.push(GeneratedPackage::Slices);
        r.push(GeneratedPackage::Strings);
        r.push(GeneratedPackage::Maps);
        r.push(GeneratedPackage::Json);
        r.push(GeneratedPackage::Cmp);
        r.push(GeneratedPackage::TestKit);
        r.push(GeneratedPackage::Testing);
        assert forall|p: GeneratedPackage| #[trigger] r@.contains(p) by {
            match p {
                GeneratedPackage::Prelude => assert(r@[0] == p),
                GeneratedPackage::Fmt => assert(r@[1] == p),
                GeneratedPackage::Errors => assert(r@[2] == p),
                GeneratedPackage::Slices => assert(r@[3] == p),
                GeneratedPackage::Strings => assert(r@[4] == p),
                GeneratedPackage::Maps => assert(r@[5] == p),
                GeneratedPackage::Json => assert(r@[6] == p),
                GeneratedPackage::Cmp => assert(r@[7] == p),
                GeneratedPackage::TestKit => assert(r@[8] == p),
                GeneratedPackage::Testing => assert(r@[9] == p),
            }
        }
        r
    }

    pub fn path(self) -> (r: &'static str)
        ensures
            r@ == package_path(self),
    {
        match self {
            GeneratedPackage::Prelude => "github.com/ivov/lisette/prelude",
            GeneratedPackage::Fmt => "fmt",
            GeneratedPackage::Errors => "errors",
            GeneratedPackage::Slices => "slices",
            GeneratedPackage::Strings => "strings",
            GeneratedPackage::Maps => "maps",
            GeneratedPackage::Json => "encoding/json",
            GeneratedPackage::Cmp => "cmp",
            GeneratedPackage::TestKit => "github.com/ivov/lisette/prelude/testkit",
            GeneratedPackage::Testing => "testing",
        }
    }

    pub fn qualifier(self) -> (r: &'static str)
        ensures
            r@ == package_qualifier(self),
    {
        match self {
            GeneratedPackage::Prelude => "lisette",
            GeneratedPackage::Fmt => "fmt",
            GeneratedPackage::Errors => "errors",
            GeneratedPackage::Slices => "slices",
            GeneratedPackage::Strings => "strings",
            GeneratedPackage::Maps => "maps",
            GeneratedPackage::Json => "json",
            GeneratedPackage::Cmp => "cmp",
            GeneratedPackage::TestKit => "testkit",
            GeneratedPackage::Testing => "testing",
        }
    }
}

pub fn prelude_qualifier() -> (r: &'static str)
    ensures
        r@ == package_qualifier(GeneratedPackage::Prelude),
{
    GeneratedPackage::Prelude.qualifier()
}

pub fn testkit_qualifier() -> (r: &'static str)
    ensures
        r@ == package_qualifier(GeneratedPackage::TestKit),
{
    GeneratedPackage::TestKit.qualifier()
}

pub fn testing_qualifier() -> (r: &'static str)
    ensures
        r@ == package_qualifier(GeneratedPackage::Testing),
{
    GeneratedPackage::Testing.qualifier()
}

/// Whether `name` is the qualifier of a generated package.
pub open spec fn generated_qualifier(name: Seq<char>) -> bool {
    exists|p: GeneratedPackage| package_qualifier(p) == name
}

pub fn is_generated_import_qualifier(name: &str) -> (r: bool)
    ensures
        r == generated_qualifier(name@),
{
    let all = GeneratedPackage::all();
    let mut i: usize = 0;
    while i < all.len()
        invariant
            i <= all@.len(),
            forall|p: GeneratedPackage| #[trigger] all@.contains(p),
            forall|j: int| 0 <= j < i ==> package_qualifier(#[trigger] all@[j]) != name@,
        decreases all.len() - i,
    {
        if str_eq(all[i].qualifier(), name) {
            return true;
        }
        i = i + 1;
    }
    assert forall|p: GeneratedPackage| package_qualifier(p) != name@ by {
        assert(all@.contains(p));
        let j = choose|j: int| 0 <= j < all@.len() && all@[j] == p;
        assert(package_qualifier(all@[j]) != name@);
    }
    false
}

/// A name generated Go code must not declare: a keyword, a predeclared
/// identifier the prelude does not re-expose, or a generated package's
/// qualifier.
pub open spec fn reserved_identifier(name: Seq<char>) -> bool {
    go_keyword(name) || (go_builtin(name) && !prelude_builtin_name(name)) || generated_qualifier(name)
}

pub fn is_reserved_identifier(name: &str) -> (r: bool)
    ensures
        r == reserved_identifier(name@),
{
    is_go_keyword(name) || (is_go_builtin(name) && !is_prelude_builtin_name(name))
        || is_generated_import_qualifier(name)
}

/// `name`, with a `_` appended when Go code may not declare it.
pub open spec fn escaped_name(name: Seq<char>) -> Seq<char> {
    if reserved_identifier(name) {
        name.push('_')
    } else {
        name
    }
}

pub fn escape_reserved(name: &str) -> (r: String)
    ensures
        r@ == escaped_name(name@),
{
    let mut r = owned(name);
    if is_reserved_identifier(name) {
        push_char(&mut r, '_');
    }
    r
}

/// The field of a Go enum struct that holds the variant tag.
pub const ENUM_TAG_FIELD: &'static str = "Tag";

/// The Go constant naming a variant's tag: the enum name then the variant
/// name, with a `_` appended when that is a reserved word; a variant named
/// like the tag field gets `<Enum>Tag_`.
pub open spec fn tag_constant_text(enum_name: Seq<char>, variant_name: Seq<char>) -> Seq<char> {
    if variant_name == "Tag"@ {
        enum_name + "Tag_"@
    } else if go_reserved_word(enum_name + variant_name) {
        (enum_name + variant_name).push('_')
    } else {
        enum_name + variant_name
    }
}

pub fn enum_tag_constant(enum_name: &str, variant_name: &str) -> (r: String)
    ensures
        r@ == tag_constant_text(enum_name@, variant_name@),
{
    if str_eq(variant_name, ENUM_TAG_FIELD) {
        let mut r = owned(enum_name);
        r.append("Tag_");
        return r;
    }
    let mut constant = owned(enum_name);
    constant.append(variant_name);
    if is_go_reserved_word(constant.as_str()) {
        push_char(&mut constant, '_');
    }
    constant
}

/// A resolved Go name and the generated package it lives in, if any.
pub struct ResolvedName {
    pub name: String,
    pub package: Option<GeneratedPackage>,
}

impl ResolvedName {
    pub fn stdlib(name: String) -> (r: Self)
        ensures
            r.name == name,
            r.package == Some(GeneratedPackage::Prelude),
    {
        ResolvedName { name, package: Some(GeneratedPackage::Prelude) }
    }

    pub fn local(name: String) -> (r: Self)
        ensures
            r.name == name,
            r.package is None,
    {
        ResolvedName { name, package: None }
    }
}

/// No reserved word, and no generated package's qualifier, ends in `_`.
proof fn lemma_reserved_end(x: Seq<char>)
    requires
        x.len() > 0,
        x.last() == '_',
    ensures
        !go_keyword(x),
        !go_builtin(x),
        !reserved_package_name(x),
        !generated_qualifier(x),
        !reserved_identifier(x),
{
    reveal_strlit("break");
    reveal_strlit("case");
    reveal_strlit("chan");
    reveal_strlit("const");
    reveal_strlit("continue");
    reveal_strlit("default");
    reveal_strlit("defer");
    reveal_strlit("else");
    reveal_strlit("fallthrough");
    reveal_strlit("for");
    reveal_strlit("func");
    reveal_strlit("go");
    reveal_strlit("goto");
    reveal_strlit("if");
    reveal_strlit("import");
    reveal_strlit("interface");
    reveal_strlit("map");
    reveal_strlit("package");
    reveal_strlit("range");
    reveal_strlit("return");
    reveal_strlit("select");
    reveal_strlit("struct");
    reveal_strlit("switch");
    reveal_strlit("type");
    reveal_strlit("var");
    reveal_strlit("any");
    reveal_strlit("bool");
    reveal_strlit("byte");
    reveal_strlit("comparable");
    reveal_strlit("complex64");
    reveal_strlit("complex128");
    reveal_strlit("error");
    reveal_strlit("float32");
    reveal_strlit("float64");
    reveal_strlit("int");
    reveal_strlit("int8");
    reveal_strlit("int16");
    reveal_strlit("int32");
    reveal_strlit("int64");
    reveal_strlit("rune");
    reveal_strlit("string");
    reveal_strlit("uint");
    reveal_strlit("uint8");
    reveal_strlit("uint16");
    reveal_strlit("uint32");
    reveal_strlit("uint64");
    reveal_strlit("uintptr");
    reveal_strlit("true");
    reveal_strlit("false");
    reveal_strlit("iota");
    reveal_strlit("nil");
    reveal_strlit("append");
    reveal_strlit("cap");
    reveal_strlit("clear");
    reveal_strlit("close");
    reveal_strlit("complex");
    reveal_strlit("copy");
    reveal_strlit("delete");
    reveal_strlit("imag");
    reveal_strlit("len");
    reveal_strlit("make");
    reveal_strlit("max");
    reveal_strlit("min");
    reveal_strlit("new");
    reveal_strlit("panic");
    reveal_strlit("print");
    reveal_strlit("println");
    reveal_strlit("real");
    reveal_strlit("recover");
    reveal_strlit("main");
    reveal_strlit("documentation");
    reveal_strlit("lisette");
    reveal_strlit("fmt");
    reveal_strlit("errors");
    reveal_strlit("slices");
    reveal_strlit("strings");
    reveal_strlit("maps");
    reveal_strlit("json");
    reveal_strlit("cmp");
    reveal_strlit("testkit");
    reveal_strlit("testing");
    assert forall|p: GeneratedPackage| package_qualifier(p) != x by {
        match p {
            GeneratedPackage::Prelude => {},
            GeneratedPackage::Fmt => {},
            GeneratedPackage::Errors => {},
            GeneratedPackage::Slices => {},
            GeneratedPackage::Strings => {},
            GeneratedPackage::Maps => {},
            GeneratedPackage::Json => {},
            GeneratedPackage::Cmp => {},
            GeneratedPackage::TestKit => {},
            GeneratedPackage::Testing => {},
        }
    }
}

/// A sanitized package name is one a Go package may take: for any nonempty
/// name, the result is an identifier and is not reserved.
pub proof fn law_sanitized_package_name(name: Seq<char>)
    requires
        name.len() > 0,
    ensures
        plain_identifier(sanitized_package_name(name)),
        !reserved_package_name(sanitized_package_name(name)),
{
    if !(plain_identifier(name) && !reserved_package_name(name)) {
        let mapped = name.map_values(|c: char| sanitized_char(c));
        let chars = identifier_chars(name);
        assert forall|i: int| 0 <= i < mapped.len() implies #[trigger] is_ident_char(mapped[i]) by {}
        if is_ascii_digit(mapped[0]) {
            assert(chars == seq!['_'] + mapped);
            assert forall|i: int| 1 <= i < chars.len() implies #[trigger] is_ident_char(chars[i]) by {
                assert(chars[i] == mapped[i - 1]);
            }
        } else {
            assert(chars == mapped);
        }
        assert(plain_identifier(chars));
        if reserved_package_name(chars) {
            let pushed = chars.push('_');
            assert forall|i: int| 1 <= i < pushed.len() implies #[trigger] is_ident_char(pushed[i]) by {
                if i < chars.len() {
                    assert(pushed[i] == chars[i]);
                }
            }
            lemma_reserved_end(pushed);
        }
    }
}

/// An escaped name is one Go code may declare: escaping never leaves a
/// reserved identifier, and leaves every other name as it is.
pub proof fn law_escaped_not_reserved(name: Seq<char>)
    ensures
        !reserved_identifier(escaped_name(name)),
        !reserved_identifier(name) ==> escaped_name(name) == name,
{
    if reserved_identifier(name) {
        lemma_reserved_end(name.push('_'));
    }
}

} // verus!
