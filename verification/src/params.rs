//! The parameters of a tool: how they are declared, read and checked.

use vstd::prelude::*;
use crate::json::{json_int, lemma_member, members, optional, Json, JsonNumber, Value};
use crate::mcp::{optional_texts, PropertySchema, PropertyView};
use crate::plugin::Plugin;
use crate::shell::{all_plain, escape, is_plain};
use crate::table::{lookup, Table};
use crate::text::{alphanumeric, chars_of, copied, letter_or_digit};

verus! {

#[derive(Debug, Clone, Copy, PartialEq, Eq, Structural)]
pub enum ParamType {
    String,
    Integer,
    Boolean,
}

/// The name of a parameter type in a JSON schema.
pub open spec fn type_label(t: ParamType) -> Seq<char> {
    match t {
        ParamType::String => "string"@,
        ParamType::Integer => "integer"@,
        ParamType::Boolean => "boolean"@,
    }
}

impl ParamType {
    pub fn as_str(&self) -> (r: &'static str)
        ensures
            r@ == type_label(*self),
    {
        match self {
            ParamType::String => "string",
            ParamType::Integer => "integer",
            ParamType::Boolean => "boolean",
        }
    }
}

#[derive(Debug)]
pub struct ParamDef {
    pub name: String,
    pub param_type: ParamType,
    pub description: String,
    pub required: bool,
    pub default: Option<Value>,
    pub enum_values: Option<Vec<String>>,
}

/// What a [`ParamDef`] says.
pub struct ParamView {
    pub name: Seq<char>,
    pub param_type: ParamType,
    pub description: Seq<char>,
    pub required: bool,
    pub default: Option<Json>,
    pub enum_values: Option<Seq<Seq<char>>>,
}

impl View for ParamDef {
    type V = ParamView;

    open spec fn view(&self) -> ParamView {
        ParamView {
            name: self.name@,
            param_type: self.param_type,
            description: self.description@,
            required: self.required,
            default: optional(self.default),
            enum_values: optional_texts(self.enum_values),
        }
    }
}

/// The property by which a schema describes a parameter.
pub open spec fn property_of(p: ParamView) -> PropertyView {
    PropertyView {
        prop_type: type_label(p.param_type),
        description: p.description,
        default: p.default,
        enum_values: p.enum_values,
    }
}

impl ParamDef {
    pub fn property(&self) -> (r: PropertySchema)
        ensures
            r@ == property_of(self@),
    {
        PropertySchema {
            prop_type: self.param_type.as_str().to_owned(),
            description: self.description.clone(),
            default: match &self.default {
                Some(value) => Some(value.clone()),
                None => None,
            },
            enum_values: match &self.enum_values {
                Some(values) => Some(copied(values)),
                None => None,
            },
        }
    }
}

/// The arguments of a call, read by type.
pub struct Params<'a>(pub &'a Table<Value>);

/// The arguments of a call by name.
pub type Arguments = Seq<(Seq<char>, Json)>;

impl<'a> View for Params<'a> {
    type V = Seq<(Seq<char>, Json)>;

    open spec fn view(&self) -> Seq<(Seq<char>, Json)> {
        members(*self.0)
    }
}

/// The argument `key`, where it is a string.
pub open spec fn string_arg(args: Arguments, key: Seq<char>) -> Option<Seq<char>> {
    match lookup(args, key) {
        Some(Json::String(s)) => Some(s),
        _ => None,
    }
}

/// The argument `key`, where it is an integer of 64 signed bits.
pub open spec fn int_arg(args: Arguments, key: Seq<char>) -> Option<i64> {
    match lookup(args, key) {
        Some(j) => json_int(j),
        None => None,
    }
}

/// The argument `key`, where it is a truth value.
pub open spec fn bool_arg(args: Arguments, key: Seq<char>) -> Option<bool> {
    match lookup(args, key) {
        Some(Json::Bool(b)) => Some(b),
        _ => None,
    }
}

impl<'a> Params<'a> {
    pub fn str(&self, key: &str) -> (r: Option<&'a str>)
        ensures
            match string_arg(self@, key@) {
                Some(s) => r matches Some(t) && t@ == s,
                None => r is None,
            },
    {
        proof {
            lemma_member(*self.0, key@);
        }
        match self.0.get(key) {
            Some(v) => v.as_str(),
            None => None,
        }
    }

    pub fn str_or(&self, key: &str, default: &'a str) -> (r: &'a str)
        ensures
            r@ == match string_arg(self@, key@) {
                Some(s) => s,
                None => default@,
            },
    {
        match self.str(key) {
            Some(s) => s,
            None => default,
        }
    }

    pub fn integer(&self, key: &str) -> (r: Option<i64>)
        ensures
            r == int_arg(self@, key@),
    {
        proof {
            lemma_member(*self.0, key@);
        }
        match self.0.get(key) {
            Some(v) => v.as_i64(),
            None => None,
        }
    }

    pub fn int_or(&self, key: &str, default: i64) -> (r: i64)
        ensures
            r == match int_arg(self@, key@) {
                Some(n) => n,
                None => default,
            },
    {
        match self.integer(key) {
            Some(n) => n,
            None => default,
        }
    }

    pub fn bool(&self, key: &str) -> (r: Option<bool>)
        ensures
            r == bool_arg(self@, key@),
    {
        proof {
            lemma_member(*self.0, key@);
        }
        match self.0.get(key) {
            Some(v) => v.as_bool(),
            None => None,
        }
    }
}

/// A rule that an argument has to meet. What an implementation leaves unsaid of
/// itself, nothing is known of.
pub trait Validator: Send + Sync {
    /// What is wrong with the value, where anything is.
    closed spec fn objection(&self, value: Json) -> Option<Seq<char>> {
        arbitrary()
    }

    fn check(&self, value: &Value) -> (r: Result<(), String>)
        ensures
            match self.objection(value@) {
                Some(e) => r matches Err(m) && m@ == e,
                None => r is Ok,
            },
    ;
}

/// Any validator.
pub type AnyValidator = Plugin<Box<dyn Validator>>;

/// Whether every character of a text may stand in a package name.
pub open spec fn package_chars(s: Seq<char>) -> bool {
    forall|i: int| 0 <= i < s.len() ==> letter_or_digit(#[trigger] s[i]) || s[i] == '.'
}

/// What is wrong with a package name.
pub open spec fn package_objection(value: Json) -> Option<Seq<char>> {
    match value {
        Json::String(s) => if s.len() == 0 {
            Some("cannot be empty"@)
        } else if !package_chars(s) {
            Some("invalid package name: only alphanumeric and '.' allowed"@)
        } else if !s.contains('.') {
            Some("package name must contain at least one '.'"@)
        } else {
            None
        },
        _ => Some("must be a string"@),
    }
}

/// Package name: only letters, digits and dots, and at least one dot, such as
/// "com.jesse.hostctl".
pub fn validate_package_name(v: &Value) -> (r: Result<(), String>)
    ensures
        match package_objection(v@) {
            Some(e) => r matches Err(m) && m@ == e,
            None => r is Ok,
        },
{
    let s: &str = match v.as_str() {
        Some(s) => s,
        None => return Err("must be a string".to_owned()),
    };
    let chars: Vec<char> = chars_of(s);
    if chars.len() == 0 {
        return Err("cannot be empty".to_owned());
    }
    let mut dot: bool = false;
    let mut i: usize = 0;
    while i < chars.len()
        invariant
            i <= chars.len(),
            chars@ == s@,
            v@ == Json::String(s@),
            s@.len() > 0,
            forall|j: int| 0 <= j < i ==> letter_or_digit(#[trigger] s@[j]) || s@[j] == '.',
            dot == exists|j: int| 0 <= j < i && s@[j] == '.',
        decreases chars.len() - i,
    {
        let c: char = chars[i];
        if !(alphanumeric(c) || c == '.') {
            return Err("invalid package name: only alphanumeric and '.' allowed".to_owned());
        }
        if c == '.' {
            dot = true;
        }
        i = i + 1;
    }
    if !dot {
        return Err("package name must contain at least one '.'".to_owned());
    }
    Ok(())
}

/// Whether two dots stand next to each other in a text.
pub open spec fn has_double_dot(s: Seq<char>) -> bool {
    exists|i: int| 0 <= i < s.len() - 1 && #[trigger] s[i] == '.' && s[i + 1] == '.'
}

/// What is wrong with a path.
pub open spec fn path_objection(value: Json) -> Option<Seq<char>> {
    match value {
        Json::String(s) => if has_double_dot(s) {
            Some("path traversal not allowed"@)
        } else if s.contains('\0') {
            Some("null bytes not allowed"@)
        } else {
            None
        },
        _ => Some("must be a string"@),
    }
}

/// File path: no traversal and no null bytes.
pub fn validate_safe_path(v: &Value) -> (r: Result<(), String>)
    ensures
        match path_objection(v@) {
            Some(e) => r matches Err(m) && m@ == e,
            None => r is Ok,
        },
{
    let s: &str = match v.as_str() {
        Some(s) => s,
        None => return Err("must be a string".to_owned()),
    };
    let chars: Vec<char> = chars_of(s);
    let mut null: bool = false;
    let mut i: usize = 0;
    while i < chars.len()
        invariant
            i <= chars.len(),
            chars@ == s@,
            v@ == Json::String(s@),
            forall|j: int| 0 <= j < i && j < s@.len() - 1 ==> !(#[trigger] s@[j] == '.' && s@[j + 1] == '.'),
            null == exists|j: int| 0 <= j < i && s@[j] == '\0',
        decreases chars.len() - i,
    {
        if i < chars.len() - 1 && chars[i] == '.' && chars[i + 1] == '.' {
            proof {
                assert(s@[i as int] == '.' && s@[i + 1] == '.');
            }
            return Err("path traversal not allowed".to_owned());
        }
        if chars[i] == '\0' {
            null = true;
        }
        i = i + 1;
    }
    if null {
        return Err("null bytes not allowed".to_owned());
    }
    Ok(())
}

/// Whether every character of a text may stand in the name of an interface.
pub open spec fn interface_chars(s: Seq<char>) -> bool {
    forall|i: int|
        0 <= i < s.len() ==> letter_or_digit(#[trigger] s[i]) || s[i] == '_' || s[i] == '-'
}

/// What is wrong with the name of a network interface.
pub open spec fn interface_objection(value: Json) -> Option<Seq<char>> {
    match value {
        Json::String(s) => if !interface_chars(s) {
            Some("invalid interface name"@)
        } else if s.len() > 16 {
            Some("interface name too long"@)
        } else {
            None
        },
        _ => Some("must be a string"@),
    }
}

/// Network interface name: letters, digits, underscores and hyphens, at most
/// 16 characters.
pub fn validate_interface_name(v: &Value) -> (r: Result<(), String>)
    ensures
        match interface_objection(v@) {
            Some(e) => r matches Err(m) && m@ == e,
            None => r is Ok,
        },
{
    let s: &str = match v.as_str() {
        Some(s) => s,
        None => return Err("must be a string".to_owned()),
    };
    let chars: Vec<char> = chars_of(s);
    let mut i: usize = 0;
    while i < chars.len()
        invariant
            i <= chars.len(),
            chars@ == s@,
            v@ == Json::String(s@),
            forall|j: int|
                0 <= j < i ==> letter_or_digit(#[trigger] s@[j]) || s@[j] == '_' || s@[j] == '-',
        decreases chars.len() - i,
    {
        let c: char = chars[i];
        if !(alphanumeric(c) || c == '_' || c == '-') {
            return Err("invalid interface name".to_owned());
        }
        i = i + 1;
    }
    if chars.len() > 16 {
        return Err("interface name too long".to_owned());
    }
    Ok(())
}

/// The validator for package names.
pub struct PackageName;

impl Validator for PackageName {
    open spec fn objection(&self, value: Json) -> Option<Seq<char>> {
        package_objection(value)
    }

    fn check(&self, value: &Value) -> (r: Result<(), String>) {
        validate_package_name(value)
    }
}

/// The validator for file paths.
pub struct SafePath;

impl Validator for SafePath {
    open spec fn objection(&self, value: Json) -> Option<Seq<char>> {
        path_objection(value)
    }

    fn check(&self, value: &Value) -> (r: Result<(), String>) {
        validate_safe_path(value)
    }
}

/// The validator for the names of network interfaces.
pub struct InterfaceName;

impl Validator for InterfaceName {
    open spec fn objection(&self, value: Json) -> Option<Seq<char>> {
        interface_objection(value)
    }

    fn check(&self, value: &Value) -> (r: Result<(), String>) {
        validate_interface_name(value)
    }
}

/// A package name that is accepted is a word that a shell reads as it stands.
pub proof fn accepted_package_name_is_one_plain_word(s: Seq<char>)
    requires
        package_objection(Json::String(s)) is None,
    ensures
        s.len() > 0,
        all_plain(s),
        escape(s) == s,
        s.contains('.'),
{
    assert forall|i: int| 0 <= i < s.len() implies is_plain(#[trigger] s[i]) by {
        assert(letter_or_digit(s[i]) || s[i] == '.');
    }
}

/// The name of an interface that is accepted names one directory entry: it has
/// no slash and no dot.
pub proof fn accepted_interface_name_stays_in_its_directory(s: Seq<char>)
    requires
        interface_objection(Json::String(s)) is None,
    ensures
        !s.contains('/'),
        !s.contains('.'),
        s.len() <= 16,
{
    if s.contains('/') {
        let i = choose|i: int| 0 <= i < s.len() && s[i] == '/';
        assert(letter_or_digit(s[i]) || s[i] == '_' || s[i] == '-');
    }
    if s.contains('.') {
        let i = choose|i: int| 0 <= i < s.len() && s[i] == '.';
        assert(letter_or_digit(s[i]) || s[i] == '_' || s[i] == '-');
    }
}

/// A path that is accepted has no two dots in a row and no null byte.
pub proof fn accepted_path_does_not_climb(s: Seq<char>)
    requires
        path_objection(Json::String(s)) is None,
    ensures
        !s.contains('\0'),
        forall|i: int, j: int|
            0 <= i && j == i + 1 && j < s.len() ==> !(#[trigger] s[i] == '.' && #[trigger] s[j]
                == '.'),
{
}

/// An argument is read as what it is: a string as its text, an integer that fits as
/// that integer, a truth value as itself, and as nothing else.
pub proof fn arguments_are_read_as_what_they_are(
    args: Arguments,
    key: Seq<char>,
    s: Seq<char>,
    n: u64,
    i: i64,
    b: bool,
)
    ensures
        lookup(args, key) == Some(Json::String(s)) ==> string_arg(args, key) == Some(s) && int_arg(
            args,
            key,
        ) is None && bool_arg(args, key) is None,
        lookup(args, key) == Some(Json::Number(JsonNumber::PosInt(n))) && n <= i64::MAX ==> (
        int_arg(args, key) matches Some(k) && k == n) && string_arg(args, key) is None,
        lookup(args, key) == Some(Json::Number(JsonNumber::NegInt(i))) ==> int_arg(args, key)
            == Some(i) && string_arg(args, key) is None,
        lookup(args, key) == Some(Json::Bool(b)) ==> bool_arg(args, key) == Some(b) && string_arg(
            args,
            key,
        ) is None && int_arg(args, key) is None,
        lookup(args, key) is None ==> string_arg(args, key) is None && int_arg(args, key) is None
            && bool_arg(args, key) is None,
{
}

/// Every name of letters, digits and dots with a dot in it is accepted as a
/// package name; an empty one, one with another character and one without a dot
/// are refused, each with its reason.
pub proof fn package_names_are_told_apart(s: Seq<char>)
    ensures
        s.contains('.') && (forall|i: int|
            0 <= i < s.len() ==> ('a' <= #[trigger] s[i] <= 'z' || 'A' <= s[i] <= 'Z' || '0' <= s[i]
                <= '9' || s[i] == '.')) ==> package_objection(Json::String(s)) is None,
        s.len() == 0 ==> package_objection(Json::String(s)) == Some("cannot be empty"@),
        (exists|i: int|
            0 <= i < s.len() && ((#[trigger] s[i]) as u32) < 128 && !('a' <= s[i] <= 'z' || 'A'
                <= s[i] <= 'Z' || '0' <= s[i] <= '9' || s[i] == '.')) ==> package_objection(
            Json::String(s),
        ) == Some("invalid package name: only alphanumeric and '.' allowed"@),
        s.len() > 0 && !s.contains('.') && (forall|i: int|
            0 <= i < s.len() ==> ('a' <= #[trigger] s[i] <= 'z' || 'A' <= s[i] <= 'Z' || '0' <= s[i]
                <= '9')) ==> package_objection(Json::String(s)) == Some(
            "package name must contain at least one '.'"@,
        ),
        package_objection(Json::Null) == Some("must be a string"@),
{
    if exists|i: int|
        0 <= i < s.len() && ((#[trigger] s[i]) as u32) < 128 && !('a' <= s[i] <= 'z' || 'A' <= s[i]
            <= 'Z' || '0' <= s[i] <= '9' || s[i] == '.') {
        let i = choose|i: int|
            0 <= i < s.len() && ((#[trigger] s[i]) as u32) < 128 && !('a' <= s[i] <= 'z' || 'A'
                <= s[i] <= 'Z' || '0' <= s[i] <= '9' || s[i] == '.');
        assert(!letter_or_digit(s[i]) && s[i] != '.');
        assert(!package_chars(s));
    }
}

/// A path is refused where two dots stand next to each other, wherever that is,
/// or else where it has a null byte, and every other path is accepted.
pub proof fn paths_are_told_apart(a: Seq<char>, b: Seq<char>, s: Seq<char>)
    ensures
        path_objection(Json::String(a + seq!['.', '.'] + b)) == Some("path traversal not allowed"@),
        path_objection(Json::String(s)) is None <==> !s.contains('\0') && forall|i: int, j: int|
            0 <= i && j == i + 1 && j < s.len() ==> !(#[trigger] s[i] == '.' && #[trigger] s[j]
                == '.'),
        !s.contains('.') && s.contains('\0') ==> path_objection(Json::String(s)) == Some(
            "null bytes not allowed"@,
        ),
        path_objection(Json::Null) == Some("must be a string"@),
{
    let t = a + seq!['.', '.'] + b;
    let k = a.len() as int;
    assert(t[k] == '.' && t[k + 1] == '.');
    assert(has_double_dot(t));
    if has_double_dot(s) {
        let i = choose|i: int| 0 <= i < s.len() - 1 && #[trigger] s[i] == '.' && s[i + 1] == '.';
        let j = i + 1;
        assert(s[i] == '.' && s[j] == '.');
        assert(s.contains('.'));
    }
}

/// Every name of at most sixteen letters, digits, underscores and hyphens is
/// accepted as that of an interface; a longer one and one with another character
/// are refused, each with its reason.
pub proof fn interface_names_are_told_apart(s: Seq<char>)
    ensures
        s.len() <= 16 && (forall|i: int|
            0 <= i < s.len() ==> ('a' <= #[trigger] s[i] <= 'z' || 'A' <= s[i] <= 'Z' || '0' <= s[i]
                <= '9' || s[i] == '_' || s[i] == '-')) ==> interface_objection(
            Json::String(s),
        ) is None,
        s.len() > 16 && (forall|i: int|
            0 <= i < s.len() ==> ('a' <= #[trigger] s[i] <= 'z' || 'A' <= s[i] <= 'Z' || '0' <= s[i]
                <= '9' || s[i] == '_' || s[i] == '-')) ==> interface_objection(Json::String(s))
            == Some("interface name too long"@),
        (exists|i: int|
            0 <= i < s.len() && ((#[trigger] s[i]) as u32) < 128 && !('a' <= s[i] <= 'z' || 'A'
                <= s[i] <= 'Z' || '0' <= s[i] <= '9' || s[i] == '_' || s[i] == '-'))
            ==> interface_objection(Json::String(s)) == Some("invalid interface name"@),
        interface_objection(Json::Null) == Some("must be a string"@),
{
    if exists|i: int|
        0 <= i < s.len() && ((#[trigger] s[i]) as u32) < 128 && !('a' <= s[i] <= 'z' || 'A' <= s[i]
            <= 'Z' || '0' <= s[i] <= '9' || s[i] == '_' || s[i] == '-') {
        let i = choose|i: int|
            0 <= i < s.len() && ((#[trigger] s[i]) as u32) < 128 && !('a' <= s[i] <= 'z' || 'A'
                <= s[i] <= 'Z' || '0' <= s[i] <= '9' || s[i] == '_' || s[i] == '-');
        assert(!letter_or_digit(s[i]) && s[i] != '_' && s[i] != '-');
        assert(!interface_chars(s));
    }
}

/// A declaration is shown as what it holds.
pub proof fn declarations_are_shown_as_they_are(p: ParamDef)
    ensures
        p@.name == p.name@,
        p@.param_type == p.param_type,
        p@.description == p.description@,
        p@.required == p.required,
        p@.default == optional(p.default),
        p@.enum_values == optional_texts(p.enum_values),
{
}

/// A number that is no integer of 64 signed bits is not read as one.
pub proof fn other_numbers_are_not_read_as_integers(
    args: Arguments,
    key: Seq<char>,
    n: u64,
    s: Seq<char>,
)
    ensures
        lookup(args, key) == Some(Json::Number(JsonNumber::PosInt(n))) && n > i64::MAX ==> int_arg(
            args,
            key,
        ) is None,
        lookup(args, key) == Some(Json::Number(JsonNumber::Float(s))) ==> int_arg(args, key) is None
            && string_arg(args, key) is None,
{
}

/// What is no string, integer or truth value is read as none of them, and no number
/// as a truth value.
pub proof fn other_values_are_not_read(args: Arguments, key: Seq<char>, j: Json)
    requires
        lookup(args, key) == Some(j),
    ensures
        !(j is String) ==> string_arg(args, key) is None,
        !(j is Number) ==> int_arg(args, key) is None,
        !(j is Bool) ==> bool_arg(args, key) is None,
{
}

} // verus!
