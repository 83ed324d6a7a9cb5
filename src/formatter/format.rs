//! Rendering a document in canonical form.
use vstd::prelude::*;

use crate::ast::{
    fields_height, height, lemma_array_child, member_height, members_height, lemma_default_child, lemma_field_height,
    lemma_item_height, lemma_member_height, FieldDef,
    ImportSpec, ImportStatement, Member, MonDocument, MonValue, MonValueKind, TypeDef,
    TypeDefinition, TypeSpec,
};
use crate::formatter::advanced::{arranged, derefs, lemma_arranged, lemma_arranged_smaller, sort_members};
use crate::formatter::comments::{
    comment_at_line, comment_model, comment_on, comments_in, extract_comments,
    lemma_comment_on_none, source_lines, Comment,
};
use crate::formatter::config::{
    indent_text, ArrayStyle, FormatConfig, ObjectStyle, TrailingCommaStyle,
};
use crate::text::{
    alphanumeric_char, chars_of, is_alphanumeric, is_numeric, numeric_char, repeat_text, repeated,
    same_text, utf8_len, utf8_length,
};

verus! {

/// Joins `parts` with `sep` between each two.
pub open spec fn join(parts: Seq<Seq<char>>, sep: Seq<char>) -> Seq<char>
    decreases parts.len(),
{
    if parts.len() == 0 {
        Seq::empty()
    } else if parts.len() == 1 {
        parts[0]
    } else {
        join(parts.drop_last(), sep) + sep + parts.last()
    }
}

/// `s` in double quotes.
pub open spec fn quoted(s: Seq<char>) -> Seq<char> {
    "\""@ + s + "\""@
}

/// A number as written out: its shortest decimal text, with negative zero
/// written `0`. Integral values carry no fractional part in that text.
pub open spec fn number_text(t: Seq<char>) -> Seq<char> {
    if t == "-0"@ {
        "0"@
    } else {
        t
    }
}

/// Whether a key must be quoted: it holds a space, a quote or any
/// character other than a letter, a digit, `_` or `-`, or starts with a
/// digit.
pub open spec fn key_needs_quotes(k: Seq<char>) -> bool {
    ||| k.contains(' ')
    ||| k.contains('"')
    ||| (k.len() > 0 && numeric_char(k[0]))
    ||| exists|i: int|
        0 <= i < k.len() && !alphanumeric_char(#[trigger] k[i]) && k[i] != '_' && k[i] != '-'
}

/// `depth` levels of indentation.
pub open spec fn indent(c: FormatConfig, depth: nat) -> Seq<char> {
    repeated(indent_text(c), depth)
}

/// Whether a trailing comma follows the last entry of a container.
pub open spec fn trailing_comma(c: FormatConfig, multiline: bool) -> bool {
    match c.trailing_commas {
        TrailingCommaStyle::Always => true,
        TrailingCommaStyle::Never => false,
        TrailingCommaStyle::Multiline => multiline,
    }
}

/// The comma after entry `i` of `total` in an expanded container.
pub open spec fn comma_after(c: FormatConfig, i: nat, total: nat) -> Seq<char> {
    if i + 1 < total {
        ","@
    } else if trailing_comma(c, true) {
        ","@
    } else {
        Seq::empty()
    }
}

/// The `&name ` prefix of an anchored value.
pub open spec fn anchor_prefix(v: MonValue) -> Seq<char> {
    match v.anchor {
        Some(a) => "&"@ + a@ + " "@,
        None => Seq::empty(),
    }
}

/// Whether the pair's value is anchored under the pair's own key, which is
/// then written `&key`.
pub open spec fn anchored_as_key(key: Seq<char>, v: MonValue) -> bool {
    v.anchor is Some && v.anchor->Some_0@ == key
}

/// The key as written before the colon.
pub open spec fn key_text(key: Seq<char>, v: MonValue) -> Seq<char> {
    if anchored_as_key(key, v) {
        "&"@ + key
    } else if key_needs_quotes(key) {
        quoted(key)
    } else {
        key
    }
}

pub open spec fn is_container(v: MonValue) -> bool {
    v.kind is Object || v.kind is Array
}

/// Whether an array is rendered over several lines by its style alone.
pub open spec fn expands_array(c: FormatConfig, items: Seq<MonValue>) -> bool {
    match c.array_style {
        ArrayStyle::Expanded => true,
        ArrayStyle::Compact => false,
        ArrayStyle::Auto => items.len() > c.array_expand_threshold || exists|i: int|
            0 <= i < items.len() && is_container(#[trigger] items[i]),
    }
}

/// Whether an object is rendered over several lines by its style alone.
pub open spec fn expands_object(c: FormatConfig, ms: Seq<Member>) -> bool {
    match c.object_style {
        ObjectStyle::Expanded => true,
        ObjectStyle::Compact => false,
        ObjectStyle::Auto => ms.len() > c.object_expand_threshold || exists|i: int|
            0 <= i < ms.len() && #[trigger] ms[i] is Pair && is_container(ms[i]->Pair_0.value),
    }
}

/// The text of a type specification.
pub open spec fn type_spec_text(t: TypeSpec) -> Seq<char>
    decreases t, 0nat,
{
    match t {
        TypeSpec::Simple(n) => n@,
        TypeSpec::Collection(specs) => "["@ + join(type_spec_texts(specs@), ", "@) + "]"@,
        TypeSpec::Spread(inner) => type_spec_text(*inner) + "..."@,
    }
}

pub open spec fn type_spec_texts(ts: Seq<TypeSpec>) -> Seq<Seq<char>>
    decreases ts, ts.len(),
{
    if ts.len() == 0 {
        Seq::empty()
    } else {
        type_spec_texts(ts.drop_last()).push(type_spec_text(ts.last()))
    }
}

/// A value with its anchor prefix.
pub open spec fn render_value(c: FormatConfig, v: MonValue, depth: nat) -> Seq<char>
    decreases v, 1nat,
{
    anchor_prefix(v) + render_bare(c, v, depth)
}

/// A value without its anchor.
pub open spec fn render_bare(c: FormatConfig, v: MonValue, depth: nat) -> Seq<char>
    decreases v, 0nat,
{
    match v.kind {
        MonValueKind::Null => "null"@,
        MonValueKind::Boolean(b) => if b {
            "true"@
        } else {
            "false"@
        },
        MonValueKind::Number(t) => number_text(t@),
        MonValueKind::String(s) => quoted(s@),
        MonValueKind::Array(items) => render_array(c, items@, depth),
        MonValueKind::Object(ms) => render_object(c, ms@, depth),
        MonValueKind::Alias(n) => "*"@ + n@,
        MonValueKind::EnumValue { enum_name, variant_name } => "$"@ + enum_name@ + "."@
            + variant_name@,
        MonValueKind::ArraySpread(n) => "...*"@ + n@,
    }
}

/// An array: empty, on one line, or expanded; a one-line form wider than
/// the maximum width (in UTF-8 bytes) is expanded instead.
pub open spec fn render_array(c: FormatConfig, items: Seq<MonValue>, depth: nat) -> Seq<char>
    decreases items, 3nat,
{
    if items.len() == 0 {
        if c.single_line_empty_arrays {
            "[]"@
        } else {
            "[\n]"@
        }
    } else if expands_array(c, items) {
        expanded_array(c, items, depth)
    } else {
        let one = single_line_array(c, items, depth);
        if utf8_len(one) > c.max_line_width {
            expanded_array(c, items, depth)
        } else {
            one
        }
    }
}

pub open spec fn single_line_array(c: FormatConfig, items: Seq<MonValue>, depth: nat) -> Seq<char>
    decreases items, 2nat,
{
    let sp = if c.space_in_brackets {
        " "@
    } else {
        Seq::empty()
    };
    "["@ + sp + join(item_texts(c, items, depth), ", "@) + sp + "]"@
}

/// The items rendered at `depth`, one text each.
pub open spec fn item_texts(c: FormatConfig, items: Seq<MonValue>, depth: nat) -> Seq<Seq<char>>
    decreases items, 1nat,
{
    if items.len() == 0 {
        Seq::empty()
    } else {
        item_texts(c, items.drop_last(), depth).push(render_value(c, items.last(), depth))
    }
}

pub open spec fn expanded_array(c: FormatConfig, items: Seq<MonValue>, depth: nat) -> Seq<char>
    decreases items, 2nat,
{
    "[\n"@ + item_lines(c, items, items.len(), depth) + indent(c, depth) + "]"@
}

/// One line per item, indented one level deeper than `depth`.
pub open spec fn item_lines(c: FormatConfig, items: Seq<MonValue>, total: nat, depth: nat) -> Seq<
    char,
>
    decreases items, 1nat,
{
    if items.len() == 0 {
        Seq::empty()
    } else {
        item_lines(c, items.drop_last(), total, depth) + indent(c, depth + 1) + render_value(
            c,
            items.last(),
            depth + 1,
        ) + comma_after(c, (items.len() - 1) as nat, total) + "\n"@
    }
}

/// An object: empty, on one line, or expanded; a one-line form wider than
/// the maximum width (in UTF-8 bytes) is expanded instead. Members appear in presentation
/// order (see [`arranged`]).
pub open spec fn render_object(c: FormatConfig, ms: Seq<Member>, depth: nat) -> Seq<char>
    decreases ms, ms.len() + 3,
{
    if ms.len() == 0 {
        if c.single_line_empty_objects {
            "{}"@
        } else {
            "{\n}"@
        }
    } else if expands_object(c, ms) {
        expanded_object(c, ms, depth)
    } else {
        let one = single_line_object(c, ms, depth);
        if utf8_len(one) > c.max_line_width {
            expanded_object(c, ms, depth)
        } else {
            one
        }
    }
}

/// Pairs and spreads on one line; type definitions and imports are left out.
pub open spec fn single_line_object(c: FormatConfig, ms: Seq<Member>, depth: nat) -> Seq<char>
    decreases ms, ms.len() + 2,
{
    "{ "@ + join(compact_parts(c, ms, ms.len(), depth), ", "@) + " }"@
}

/// The one-line texts of the first `k` members in presentation order.
pub open spec fn compact_parts(c: FormatConfig, ms: Seq<Member>, k: nat, depth: nat) -> Seq<
    Seq<char>,
>
    decreases ms, k,
{
    if k == 0 || k > ms.len() {
        Seq::empty()
    } else {
        proof {
            lemma_arranged_smaller(ms, c.sort_keys, k - 1);
        }
        let rest = compact_parts(c, ms, (k - 1) as nat, depth);
        match compact_part(c, arranged(ms, c.sort_keys)[k - 1], depth) {
            Some(part) => rest.push(part),
            None => rest,
        }
    }
}

/// A pair or a spread as written on one line; nothing for other members.
pub open spec fn compact_part(c: FormatConfig, m: Member, depth: nat) -> Option<Seq<char>>
    decreases m, 0nat,
{
    match m {
        Member::Pair(p) => Some(
            key_text(p.key@, p.value) + ":"@ + (if c.space_after_colon {
                " "@
            } else {
                Seq::empty()
            }) + if anchored_as_key(p.key@, p.value) {
                render_bare(c, p.value, depth)
            } else {
                render_value(c, p.value, depth)
            },
        ),
        Member::Spread(n) => Some("...*"@ + n@),
        _ => None,
    }
}

pub open spec fn expanded_object(c: FormatConfig, ms: Seq<Member>, depth: nat) -> Seq<char>
    decreases ms, ms.len() + 2,
{
    "{\n"@ + member_lines(c, ms, ms.len(), depth) + indent(c, depth) + "}"@
}

/// The colon between key and value, with the configured spacing.
pub open spec fn colon_text(c: FormatConfig) -> Seq<char> {
    (if c.space_before_colon {
        " "@
    } else {
        Seq::empty()
    }) + ":"@ + if c.space_after_colon {
        " "@
    } else {
        Seq::empty()
    }
}

/// One line for each of the first `k` members in presentation order,
/// indented one level deeper than `depth`; an import member leaves only its
/// indentation.
pub open spec fn member_lines(c: FormatConfig, ms: Seq<Member>, k: nat, depth: nat) -> Seq<char>
    decreases ms, k,
{
    if k == 0 || k > ms.len() {
        Seq::empty()
    } else {
        proof {
            lemma_arranged_smaller(ms, c.sort_keys, k - 1);
        }
        let m = arranged(ms, c.sort_keys)[k - 1];
        let before = member_lines(c, ms, (k - 1) as nat, depth) + indent(c, depth + 1);
        match m {
            Member::Import(_) => before,
            _ => before + member_text(c, m, depth + 1) + comma_after(c, (k - 1) as nat, ms.len())
                + "\n"@,
        }
    }
}

/// One member of an expanded object, without indentation or comma.
pub open spec fn member_text(c: FormatConfig, m: Member, depth: nat) -> Seq<char>
    decreases m, 0nat,
{
    match m {
        Member::Pair(p) => key_text(p.key@, p.value) + colon_text(c) + if anchored_as_key(
            p.key@,
            p.value,
        ) {
            render_bare(c, p.value, depth)
        } else {
            render_value(c, p.value, depth)
        },
        Member::Spread(n) => "...*"@ + n@,
        Member::TypeDefinition(t) => typedef_text(c, t),
        Member::Import(_) => Seq::empty(),
    }
}

/// A `#struct` or `#enum` declaration; its entries are indented two
/// levels, its closing brace one.
pub open spec fn typedef_text(c: FormatConfig, t: TypeDefinition) -> Seq<char>
    decreases t, 0nat,
{
    match t.def_type {
        TypeDef::Struct(s) => t.name@ + ": #struct {\n"@ + field_lines(c, s.fields@, s.fields@.len())
            + indent_text(c) + "}"@,
        TypeDef::Enum(e) => t.name@ + ": #enum {\n"@ + variant_lines(c, e.variants@, e.variants@.len())
            + indent_text(c) + "}"@,
    }
}

pub open spec fn field_lines(c: FormatConfig, fs: Seq<FieldDef>, total: nat) -> Seq<char>
    decreases fs, fs.len(),
{
    if fs.len() == 0 {
        Seq::empty()
    } else {
        let f = fs.last();
        field_lines(c, fs.drop_last(), total) + indent_text(c) + indent_text(c) + f.name@ + "("@
            + type_spec_text(f.type_spec) + ")"@ + (match f.default_value {
            Some(d) => " = "@ + render_value(c, d, 0),
            None => Seq::empty(),
        }) + comma_after(c, (fs.len() - 1) as nat, total) + "\n"@
    }
}

pub open spec fn variant_lines(c: FormatConfig, vs: Seq<String>, total: nat) -> Seq<char>
    decreases vs.len(),
{
    if vs.len() == 0 {
        Seq::empty()
    } else {
        variant_lines(c, vs.drop_last(), total) + indent_text(c) + indent_text(c) + vs.last()@
            + comma_after(c, (vs.len() - 1) as nat, total) + "\n"@
    }
}


/// How an import statement is written.
pub open spec fn import_text(i: ImportStatement) -> Seq<char> {
    match i.spec {
        ImportSpec::Namespace(ns) => "import * as "@ + ns@ + " from \""@ + i.path@ + "\""@,
        ImportSpec::Named(items) => "import { "@ + join(import_item_texts(items@), ", "@)
            + " } from \""@ + i.path@ + "\""@,
    }
}

pub open spec fn import_item_texts(items: Seq<crate::ast::ImportSpecifier>) -> Seq<Seq<char>>
    decreases items.len(),
{
    if items.len() == 0 {
        Seq::empty()
    } else {
        let it = items.last();
        import_item_texts(items.drop_last()).push(
            if it.is_anchor {
                "&"@ + it.name@
            } else {
                it.name@
            },
        )
    }
}

/// Joining one more part adds the separator and the part.
pub proof fn lemma_join_push(parts: Seq<Seq<char>>, sep: Seq<char>, x: Seq<char>)
    ensures
        join(parts.push(x), sep) == if parts.len() == 0 {
            x
        } else {
            join(parts, sep) + sep + x
        },
{
    assert(parts.push(x).drop_last() =~= parts);
}

/// Renders documents in canonical form under one configuration.
pub struct Formatter {
    pub config: FormatConfig,
}

impl Formatter {
    pub fn new(config: FormatConfig) -> (r: Self)
        ensures
            r.config == config,
    {
        Formatter { config }
    }

    /// A string in double quotes (the only quoting the language has).
    fn format_string(&self, s: &str) -> (r: String)
        ensures
            r@ == quoted(s@),
    {
        let mut r = String::from_str("\"");
        r.append(s);
        r.append("\"");
        r
    }

    /// `depth` levels of indentation.
    fn indent_at(&self, depth: usize) -> (r: String)
        ensures
            r@ == indent(self.config, depth as nat),
    {
        let unit = self.config.indent_string();
        repeat_text(unit.as_str(), depth)
    }

    fn should_add_trailing_comma(&self, is_multiline: bool) -> (r: bool)
        ensures
            r == trailing_comma(self.config, is_multiline),
    {
        match self.config.trailing_commas {
            TrailingCommaStyle::Always => true,
            TrailingCommaStyle::Never => false,
            TrailingCommaStyle::Multiline => is_multiline,
        }
    }

    /// Appends the comma that follows entry `i` of `total`.
    fn push_comma(&self, r: &mut String, i: usize, total: usize)
        ensures
            final(r)@ == old(r)@ + comma_after(self.config, i as nat, total as nat),
    {
        if (total > 0 && i < total - 1) || self.should_add_trailing_comma(true) {
            r.append(",");
        } else {
            assert(r@ =~= r@ + Seq::<char>::empty());
        }
    }

    fn should_expand_array(&self, items: &Vec<MonValue>) -> (r: bool)
        ensures
            r == expands_array(self.config, items@),
    {
        match self.config.array_style {
            ArrayStyle::Expanded => true,
            ArrayStyle::Compact => false,
            ArrayStyle::Auto => {
                if items.len() > self.config.array_expand_threshold {
                    return true;
                }
                let mut i: usize = 0;
                while i < items.len()
                    invariant
                        self.config.array_style == ArrayStyle::Auto,
                        items@.len() <= self.config.array_expand_threshold,
                        i <= items@.len(),
                        forall|j: int| 0 <= j < i ==> !is_container(#[trigger] items@[j]),
                    decreases items.len() - i,
                {
                    match &items[i].kind {
                        MonValueKind::Object(_) => {
                            assert(is_container(items@[i as int]));
                            return true;
                        },
                        MonValueKind::Array(_) => {
                            assert(is_container(items@[i as int]));
                            return true;
                        },
                        _ => {},
                    }
                    i = i + 1;
                }
                false
            },
        }
    }

    fn should_expand_object(&self, members: &Vec<Member>) -> (r: bool)
        ensures
            r == expands_object(self.config, members@),
    {
        match self.config.object_style {
            ObjectStyle::Expanded => true,
            ObjectStyle::Compact => false,
            ObjectStyle::Auto => {
                if members.len() > self.config.object_expand_threshold {
                    return true;
                }
                let mut i: usize = 0;
                while i < members.len()
                    invariant
                        self.config.object_style == ObjectStyle::Auto,
                        members@.len() <= self.config.object_expand_threshold,
                        i <= members@.len(),
                        forall|j: int|
                            0 <= j < i ==> !(#[trigger] members@[j] is Pair && is_container(
                                members@[j]->Pair_0.value,
                            )),
                    decreases members.len() - i,
                {
                    match &members[i] {
                        Member::Pair(pair) => {
                            match &pair.value.kind {
                                MonValueKind::Object(_) => {
                                    assert(members@[i as int] is Pair && is_container(members@[i as int]->Pair_0.value));
                                    return true;
                                },
                                MonValueKind::Array(_) => {
                                    assert(members@[i as int] is Pair && is_container(members@[i as int]->Pair_0.value));
                                    return true;
                                },
                                _ => {},
                            }
                        },
                        _ => {},
                    }
                    i = i + 1;
                }
                false
            },
        }
    }

    /// A value with its `&anchor ` prefix, if any.
    fn format_value(&self, value: &MonValue, depth: usize) -> (r: String)
        requires
            depth + height(*value) <= usize::MAX,
        ensures
            r@ == render_value(self.config, *value, depth as nat),
        decreases value, 5nat,
    {
        let mut result = String::new();
        match &value.anchor {
            Some(anchor) => {
                result.append("&");
                result.append(anchor.as_str());
                result.append(" ");
            },
            None => {},
        }
        let formatted = self.format_value_kind(value, depth);
        result.append(formatted.as_str());
        proof {
            assert(result@ =~= render_value(self.config, *value, depth as nat));
        }
        result
    }

    /// A value without its anchor.
    fn format_value_kind(&self, value: &MonValue, depth: usize) -> (r: String)
        requires
            depth + height(*value) <= usize::MAX,
        ensures
            r@ == render_bare(self.config, *value, depth as nat),
        decreases value, 4nat,
    {
        match &value.kind {
            MonValueKind::Null => String::from_str("null"),
            MonValueKind::Boolean(b) => if *b {
                String::from_str("true")
            } else {
                String::from_str("false")
            },
            MonValueKind::Number(t) => if same_text(t.as_str(), "-0") {
                String::from_str("0")
            } else {
                t.clone()
            },
            MonValueKind::String(s) => self.format_string(s.as_str()),
            MonValueKind::Array(items) => self.format_array(value, items, depth),
            MonValueKind::Object(members) => self.format_object(value, members, depth),
            MonValueKind::Alias(name) => {
                let mut r = String::from_str("*");
                r.append(name.as_str());
                r
            },
            MonValueKind::EnumValue { enum_name, variant_name } => {
                let mut r = String::from_str("$");
                r.append(enum_name.as_str());
                r.append(".");
                r.append(variant_name.as_str());
                r
            },
            MonValueKind::ArraySpread(name) => {
                let mut r = String::from_str("...*");
                r.append(name.as_str());
                r
            },
        }
    }

    /// An array: empty, on one line, or expanded; too wide a single line is
    /// expanded instead.
    fn format_array(&self, value: &MonValue, items: &Vec<MonValue>, depth: usize) -> (r: String)
        requires
            value.kind == MonValueKind::Array(*items),
            depth + height(*value) <= usize::MAX,
        ensures
            r@ == render_array(self.config, items@, depth as nat),
        decreases value, 3nat,
    {
        if items.len() == 0 {
            return if self.config.single_line_empty_arrays {
                String::from_str("[]")
            } else {
                String::from_str("[\n]")
            };
        }
        if self.should_expand_array(items) {
            return self.format_array_expanded(value, items, depth);
        }
        let formatted = self.format_array_single(value, items, depth);
        if utf8_length(formatted.as_str()) > self.config.max_line_width as u128 {
            return self.format_array_expanded(value, items, depth);
        }
        formatted
    }

    /// The items on one line, rendered at the array's own depth.
    fn format_array_single(&self, value: &MonValue, items: &Vec<MonValue>, depth: usize) -> (r: String)
        requires
            value.kind == MonValueKind::Array(*items),
            depth + height(*value) <= usize::MAX,
        ensures
            r@ == single_line_array(self.config, items@, depth as nat),
        decreases value, 2nat,
    {
        let mut joined = String::new();
        let mut i: usize = 0;
        proof {
            assert(item_texts(self.config, items@.subrange(0, 0), depth as nat) =~= Seq::<Seq<char>>::empty());
        }
        while i < items.len()
            invariant
                value.kind == MonValueKind::Array(*items),
                depth + height(*value) <= usize::MAX,
                i <= items@.len(),
                joined@ == join(item_texts(self.config, items@.subrange(0, i as int), depth as nat), ", "@),
            decreases items.len() - i,
        {
            proof {
                assert(items@.subrange(0, i + 1).drop_last() =~= items@.subrange(0, i as int));
                lemma_array_child(*value, i as int);
                lemma_item_height(items@, i as int);
                lemma_join_push(item_texts(self.config, items@.subrange(0, i as int), depth as nat), ", "@, render_value(self.config, items@[i as int], depth as nat));
            }
            let text = self.format_value(&items[i], depth);
            if i > 0 {
                joined.append(", ");
            }
            joined.append(text.as_str());
            i = i + 1;
        }
        proof {
            assert(items@.subrange(0, items@.len() as int) =~= items@);
        }
        let mut r = String::from_str("[");
        if self.config.space_in_brackets {
            r.append(" ");
        }
        r.append(joined.as_str());
        if self.config.space_in_brackets {
            r.append(" ");
        }
        r.append("]");
        proof {
            assert(r@ =~= single_line_array(self.config, items@, depth as nat));
        }
        r
    }

    /// One item per line, one level deeper.
    fn format_array_expanded(&self, value: &MonValue, items: &Vec<MonValue>, depth: usize) -> (r: String)
        requires
            value.kind == MonValueKind::Array(*items),
            depth + height(*value) <= usize::MAX,
        ensures
            r@ == expanded_array(self.config, items@, depth as nat),
        decreases value, 2nat,
    {
        let outer_indent = self.indent_at(depth);
        let inner_indent = self.indent_at(depth + 1);
        let mut lines = String::new();
        let mut i: usize = 0;
        proof {
            assert(item_lines(self.config, items@.subrange(0, 0), items@.len(), depth as nat) =~= Seq::<char>::empty());
        }
        while i < items.len()
            invariant
                value.kind == MonValueKind::Array(*items),
                depth + height(*value) <= usize::MAX,
                i <= items@.len(),
                inner_indent@ == indent(self.config, (depth + 1) as nat),
                lines@ == item_lines(self.config, items@.subrange(0, i as int), items@.len(), depth as nat),
            decreases items.len() - i,
        {
            proof {
                assert(items@.subrange(0, i + 1).drop_last() =~= items@.subrange(0, i as int));
                lemma_array_child(*value, i as int);
                lemma_item_height(items@, i as int);
            }
            lines.append(inner_indent.as_str());
            let text = self.format_value(&items[i], depth + 1);
            lines.append(text.as_str());
            self.push_comma(&mut lines, i, items.len());
            lines.append("\n");
            i = i + 1;
        }
        proof {
            assert(items@.subrange(0, items@.len() as int) =~= items@);
        }
        let mut r = String::from_str("[\n");
        r.append(lines.as_str());
        r.append(outer_indent.as_str());
        r.append("]");
        proof {
            assert(r@ =~= expanded_array(self.config, items@, depth as nat));
        }
        r
    }

    /// An object: empty, on one line, or expanded; too wide a single line
    /// is expanded instead.
    fn format_object(&self, value: &MonValue, members: &Vec<Member>, depth: usize) -> (r: String)
        requires
            value.kind == MonValueKind::Object(*members),
            depth + height(*value) <= usize::MAX,
        ensures
            r@ == render_object(self.config, members@, depth as nat),
        decreases value, 3nat,
    {
        if members.len() == 0 {
            return if self.config.single_line_empty_objects {
                String::from_str("{}")
            } else {
                String::from_str("{\n}")
            };
        }
        if self.should_expand_object(members) {
            return self.format_object_expanded(value, members, depth);
        }
        let formatted = self.format_object_single(value, members, depth);
        if utf8_length(formatted.as_str()) > self.config.max_line_width as u128 {
            return self.format_object_expanded(value, members, depth);
        }
        formatted
    }

    /// The key of a pair as written before the colon.
    fn format_key(&self, key: &String, value: &MonValue) -> (r: String)
        ensures
            r@ == key_text(key@, *value),
    {
        let matching = match &value.anchor {
            Some(a) => same_text(a.as_str(), key.as_str()),
            None => false,
        };
        if matching {
            let mut r = String::from_str("&");
            r.append(key.as_str());
            r
        } else if needs_quotes(key.as_str()) {
            self.format_string(key.as_str())
        } else {
            key.clone()
        }
    }

    /// Pairs and spreads on one line in presentation order, values at the
    /// object's own depth.
    fn format_object_single(&self, value: &MonValue, members: &Vec<Member>, depth: usize) -> (r: String)
        requires
            value.kind == MonValueKind::Object(*members),
            depth + height(*value) <= usize::MAX,
        ensures
            r@ == single_line_object(self.config, members@, depth as nat),
        decreases value, 2nat,
    {
        let order = sort_members(members, self.config.sort_keys);
        proof {
            lemma_arranged(members@, self.config.sort_keys);
        }
        let mut joined = String::new();
        let mut count: usize = 0;
        let mut i: usize = 0;
        while i < order.len()
            invariant
                value.kind == MonValueKind::Object(*members),
                depth + height(*value) <= usize::MAX,
                derefs(order@) == arranged(members@, self.config.sort_keys),
                order@.len() == members@.len(),
                i <= order@.len(),
                count <= i,
                count == compact_parts(self.config, members@, i as nat, depth as nat).len(),
                joined@ == join(compact_parts(self.config, members@, i as nat, depth as nat), ", "@),
            decreases order.len() - i,
        {
            let ghost prev = compact_parts(self.config, members@, i as nat, depth as nat);
            let m = order[i];
            proof {
                assert(derefs(order@)[i as int] == *m);
                lemma_object_arranged_child(*value, self.config.sort_keys, i as int);
                lemma_arranged_height(members@, self.config.sort_keys, i as int);
            }
            match self.format_compact_part(m, depth) {
                Some(part) => {
                    proof {
                        lemma_join_push(prev, ", "@, part@);
                    }
                    if count > 0 {
                        joined.append(", ");
                    }
                    joined.append(part.as_str());
                    count = count + 1;
                },
                None => {},
            }
            i = i + 1;
        }
        let mut r = String::from_str("{ ");
        r.append(joined.as_str());
        r.append(" }");
        r
    }

    /// A pair or a spread as written on one line; nothing for other members.
    fn format_compact_part(&self, m: &Member, depth: usize) -> (r: Option<String>)
        requires
            depth + member_height(*m) <= usize::MAX,
        ensures
            r.is_some() == compact_part(self.config, *m, depth as nat).is_some(),
            r.is_some() ==> r.unwrap()@ == compact_part(self.config, *m, depth as nat).unwrap(),
        decreases m, 1nat,
    {
        match m {
            Member::Pair(pair) => {
                proof {
                    assert(decreases_to!(*m => m->Pair_0));
                    assert(decreases_to!(m->Pair_0 => m->Pair_0.value));
                }
                let mut part = self.format_key(&pair.key, &pair.value);
                part.append(":");
                if self.config.space_after_colon {
                    part.append(" ");
                }
                let matching = match &pair.value.anchor {
                    Some(a) => same_text(a.as_str(), pair.key.as_str()),
                    None => false,
                };
                let text = if matching {
                    self.format_value_kind(&pair.value, depth)
                } else {
                    self.format_value(&pair.value, depth)
                };
                part.append(text.as_str());
                proof {
                    assert(part@ =~= compact_part(self.config, *m, depth as nat).unwrap());
                }
                Some(part)
            },
            Member::Spread(name) => {
                let mut part = String::from_str("...*");
                part.append(name.as_str());
                Some(part)
            },
            _ => None,
        }
    }

    /// One member per line in presentation order, one level deeper; an
    /// import member leaves only its indentation.
    fn format_object_expanded(&self, value: &MonValue, members: &Vec<Member>, depth: usize) -> (r: String)
        requires
            value.kind == MonValueKind::Object(*members),
            depth + height(*value) <= usize::MAX,
        ensures
            r@ == expanded_object(self.config, members@, depth as nat),
        decreases value, 2nat,
    {
        let order = sort_members(members, self.config.sort_keys);
        proof {
            lemma_arranged(members@, self.config.sort_keys);
        }
        let outer_indent = self.indent_at(depth);
        let inner_indent = self.indent_at(depth + 1);
        let mut lines = String::new();
        let mut i: usize = 0;
        while i < order.len()
            invariant
                value.kind == MonValueKind::Object(*members),
                depth + height(*value) <= usize::MAX,
                derefs(order@) == arranged(members@, self.config.sort_keys),
                order@.len() == members@.len(),
                i <= order@.len(),
                inner_indent@ == indent(self.config, (depth + 1) as nat),
                lines@ == member_lines(self.config, members@, i as nat, depth as nat),
            decreases order.len() - i,
        {
            let m = order[i];
            proof {
                assert(derefs(order@)[i as int] == *m);
                lemma_object_arranged_child(*value, self.config.sort_keys, i as int);
                lemma_arranged_height(members@, self.config.sort_keys, i as int);
            }
            lines.append(inner_indent.as_str());
            match m {
                Member::Import(_) => {},
                _ => {
                    let text = self.format_member(m, depth + 1);
                    lines.append(text.as_str());
                    self.push_comma(&mut lines, i, members.len());
                    lines.append("\n");
                },
            }
            i = i + 1;
        }
        let mut r = String::from_str("{\n");
        r.append(lines.as_str());
        r.append(outer_indent.as_str());
        r.append("}");
        proof {
            assert(r@ =~= expanded_object(self.config, members@, depth as nat));
        }
        r
    }

    /// One member of an expanded object, its value rendered at `depth`.
    fn format_member(&self, m: &Member, depth: usize) -> (r: String)
        requires
            depth + member_height(*m) <= usize::MAX,
        ensures
            r@ == member_text(self.config, *m, depth as nat),
        decreases m, 1nat,
    {
        match m {
            Member::Pair(pair) => {
                proof {
                    assert(decreases_to!(*m => m->Pair_0));
                    assert(decreases_to!(m->Pair_0 => m->Pair_0.value));
                }
                let mut r = self.format_key(&pair.key, &pair.value);
                if self.config.space_before_colon {
                    r.append(" ");
                }
                r.append(":");
                if self.config.space_after_colon {
                    r.append(" ");
                }
                let matching = match &pair.value.anchor {
                    Some(a) => same_text(a.as_str(), pair.key.as_str()),
                    None => false,
                };
                let text = if matching {
                    self.format_value_kind(&pair.value, depth)
                } else {
                    self.format_value(&pair.value, depth)
                };
                r.append(text.as_str());
                proof {
                    assert(r@ =~= member_text(self.config, *m, depth as nat));
                }
                r
            },
            Member::Spread(name) => {
                let mut r = String::from_str("...*");
                r.append(name.as_str());
                r
            },
            Member::TypeDefinition(typedef) => {
                proof {
                    assert(decreases_to!(*m => m->TypeDefinition_0));
                }
                self.format_typedef(typedef)
            },
            Member::Import(_) => String::new(),
        }
    }

    /// A `#struct` or `#enum` declaration.
    fn format_typedef(&self, typedef: &TypeDefinition) -> (r: String)
        requires
            typedef.def_type is Struct ==> fields_height(typedef.def_type->Struct_0.fields@)
                <= usize::MAX,
        ensures
            r@ == typedef_text(self.config, *typedef),
        decreases typedef, 0nat,
    {
        let unit = self.config.indent_string();
        match &typedef.def_type {
            TypeDef::Struct(struct_def) => {
                let fields = &struct_def.fields;
                let mut lines = String::new();
                let mut i: usize = 0;
                proof {
                    assert(field_lines(self.config, fields@.subrange(0, 0), fields@.len()) =~= Seq::<char>::empty());
                }
                while i < fields.len()
                    invariant
                        typedef.def_type == TypeDef::Struct(*struct_def),
                        fields == struct_def.fields,
                        fields_height(fields@) <= usize::MAX,
                        unit@ == indent_text(self.config),
                        i <= fields@.len(),
                        lines@ == field_lines(self.config, fields@.subrange(0, i as int), fields@.len()),
                    decreases fields.len() - i,
                {
                    proof {
                        assert(fields@.subrange(0, i + 1).drop_last() =~= fields@.subrange(0, i as int));
                    }
                    let field = &fields[i];
                    lines.append(unit.as_str());
                    lines.append(unit.as_str());
                    lines.append(field.name.as_str());
                    lines.append("(");
                    let spec_text = self.format_type_spec(&field.type_spec);
                    lines.append(spec_text.as_str());
                    lines.append(")");
                    match &field.default_value {
                        Some(default) => {
                            proof {
                                lemma_default_child(*typedef, i as int);
                                lemma_field_height(fields@, i as int);
                            }
                            lines.append(" = ");
                            let text = self.format_value(default, 0);
                            lines.append(text.as_str());
                        },
                        None => {},
                    }
                    self.push_comma(&mut lines, i, fields.len());
                    lines.append("\n");
                    proof {
                        assert(lines@ =~= field_lines(self.config, fields@.subrange(0, i + 1), fields@.len()));
                    }
                    i = i + 1;
                }
                proof {
                    assert(fields@.subrange(0, fields@.len() as int) =~= fields@);
                }
                let mut r = String::new();
                r.append(typedef.name.as_str());
                r.append(": #struct {\n");
                r.append(lines.as_str());
                r.append(unit.as_str());
                r.append("}");
                proof {
                    assert(r@ =~= typedef_text(self.config, *typedef));
                }
                r
            },
            TypeDef::Enum(enum_def) => {
                let variants = &enum_def.variants;
                let mut lines = String::new();
                let mut i: usize = 0;
                proof {
                    assert(variant_lines(self.config, variants@.subrange(0, 0), variants@.len()) =~= Seq::<char>::empty());
                }
                while i < variants.len()
                    invariant
                        unit@ == indent_text(self.config),
                        i <= variants@.len(),
                        lines@ == variant_lines(self.config, variants@.subrange(0, i as int), variants@.len()),
                    decreases variants.len() - i,
                {
                    proof {
                        assert(variants@.subrange(0, i + 1).drop_last() =~= variants@.subrange(0, i as int));
                    }
                    lines.append(unit.as_str());
                    lines.append(unit.as_str());
                    lines.append(variants[i].as_str());
                    self.push_comma(&mut lines, i, variants.len());
                    lines.append("\n");
                    i = i + 1;
                }
                proof {
                    assert(variants@.subrange(0, variants@.len() as int) =~= variants@);
                }
                let mut r = String::new();
                r.append(typedef.name.as_str());
                r.append(": #enum {\n");
                r.append(lines.as_str());
                r.append(unit.as_str());
                r.append("}");
                proof {
                    assert(r@ =~= typedef_text(self.config, *typedef));
                }
                r
            },
        }
    }

    /// A type specification: a name, `[A, B]`, or `T...`.
    fn format_type_spec(&self, type_spec: &TypeSpec) -> (r: String)
        ensures
            r@ == type_spec_text(*type_spec),
        decreases type_spec,
    {
        match type_spec {
            TypeSpec::Simple(name) => name.clone(),
            TypeSpec::Collection(specs) => {
                let mut joined = String::new();
                let mut i: usize = 0;
                proof {
                    assert(type_spec_texts(specs@.subrange(0, 0)) =~= Seq::<Seq<char>>::empty());
                }
                while i < specs.len()
                    invariant
                        *type_spec == TypeSpec::Collection(*specs),
                        i <= specs@.len(),
                        joined@ == join(type_spec_texts(specs@.subrange(0, i as int)), ", "@),
                    decreases specs.len() - i,
                {
                    proof {
                        assert(specs@.subrange(0, i + 1).drop_last() =~= specs@.subrange(0, i as int));
                        assert(decreases_to!(*type_spec => specs@[i as int])) by {
                            assert(decreases_to!(*type_spec => type_spec->Collection_0));
                            assert(decreases_to!(*specs => specs@));
                            assert(decreases_to!(specs@ => specs@[i as int]));
                        }
                        lemma_join_push(type_spec_texts(specs@.subrange(0, i as int)), ", "@, type_spec_text(specs@[i as int]));
                    }
                    let text = self.format_type_spec(&specs[i]);
                    if i > 0 {
                        joined.append(", ");
                    }
                    joined.append(text.as_str());
                    i = i + 1;
                }
                proof {
                    assert(specs@.subrange(0, specs@.len() as int) =~= specs@);
                }
                let mut r = String::from_str("[");
                r.append(joined.as_str());
                r.append("]");
                r
            },
            TypeSpec::Spread(inner) => {
                let mut r = self.format_type_spec(inner);
                r.append("...");
                r
            },
        }
    }

    /// An import statement.
    fn format_import(&self, import: &ImportStatement) -> (r: String)
        ensures
            r@ == import_text(*import),
    {
        match &import.spec {
            ImportSpec::Namespace(ns) => {
                let mut r = String::from_str("import * as ");
                r.append(ns.as_str());
                r.append(" from \"");
                r.append(import.path.as_str());
                r.append("\"");
                r
            },
            ImportSpec::Named(items) => {
                let mut joined = String::new();
                let mut i: usize = 0;
                proof {
                    assert(import_item_texts(items@.subrange(0, 0)) =~= Seq::<Seq<char>>::empty());
                }
                while i < items.len()
                    invariant
                        i <= items@.len(),
                        joined@ == join(import_item_texts(items@.subrange(0, i as int)), ", "@),
                    decreases items.len() - i,
                {
                    proof {
                        assert(items@.subrange(0, i + 1).drop_last() =~= items@.subrange(0, i as int));
                    }
                    let item = &items[i];
                    let mut name = String::new();
                    if item.is_anchor {
                        name.append("&");
                    }
                    name.append(item.name.as_str());
                    proof {
                        lemma_join_push(import_item_texts(items@.subrange(0, i as int)), ", "@, name@);
                        assert(name@ =~= if item.is_anchor { "&"@ + item.name@ } else { item.name@ });
                    }
                    if i > 0 {
                        joined.append(", ");
                    }
                    joined.append(name.as_str());
                    i = i + 1;
                }
                proof {
                    assert(items@.subrange(0, items@.len() as int) =~= items@);
                }
                let mut r = String::from_str("import { ");
                r.append(joined.as_str());
                r.append(" } from \"");
                r.append(import.path.as_str());
                r.append("\"");
                r
            },
        }
    }
}

/// Whether a key must be quoted (see [`key_needs_quotes`]).
pub fn needs_quotes(key: &str) -> (r: bool)
    ensures
        r == key_needs_quotes(key@),
{
    let cs = chars_of(key);
    let mut has_space = false;
    let mut has_quote = false;
    let mut has_other = false;
    let mut i: usize = 0;
    while i < cs.len()
        invariant
            cs@ == key@,
            i <= cs@.len(),
            has_space == cs@.subrange(0, i as int).contains(' '),
            has_quote == cs@.subrange(0, i as int).contains('"'),
            has_other == exists|j: int|
                0 <= j < i && !alphanumeric_char(#[trigger] cs@[j]) && cs@[j] != '_' && cs@[j] != '-',
        decreases cs.len() - i,
    {
        let c = cs[i];
        proof {
            let s = cs@.subrange(0, i + 1);
            let p = cs@.subrange(0, i as int);
            assert(s =~= p.push(c));
            assert(s.contains(' ') == (p.contains(' ') || c == ' ')) by {
                if c == ' ' { assert(s[i as int] == ' '); }
                if s.contains(' ') {
                    let k = choose|k: int| 0 <= k < s.len() && s[k] == ' ';
                    if k < i { assert(p[k] == ' '); }
                }
                if p.contains(' ') {
                    let k = choose|k: int| 0 <= k < p.len() && p[k] == ' ';
                    assert(s[k] == ' ');
                }
            }
            assert(s.contains('"') == (p.contains('"') || c == '"')) by {
                if c == '"' { assert(s[i as int] == '"'); }
                if s.contains('"') {
                    let k = choose|k: int| 0 <= k < s.len() && s[k] == '"';
                    if k < i { assert(p[k] == '"'); }
                }
                if p.contains('"') {
                    let k = choose|k: int| 0 <= k < p.len() && p[k] == '"';
                    assert(s[k] == '"');
                }
            }
        }
        if c == ' ' {
            has_space = true;
        }
        if c == '"' {
            has_quote = true;
        }
        if !is_alphanumeric(c) && c != '_' && c != '-' {
            has_other = true;
        }
        i = i + 1;
    }
    proof {
        assert(cs@.subrange(0, cs@.len() as int) =~= cs@);
    }
    let starts_numeric = cs.len() > 0 && is_numeric(cs[0]);
    has_space || has_quote || starts_numeric || has_other
}

/// The comments as the contracts see them.
pub type CommentModel = (nat, nat, Seq<char>, bool);

/// How many lines from `line` on hold a standalone comment, one after the
/// other (looking at most `fuel` lines ahead).
pub open spec fn leading_count(cm: Seq<CommentModel>, line: nat, fuel: nat) -> nat
    decreases fuel,
{
    if fuel == 0 {
        0
    } else {
        match comment_on(cm, line) {
            Some(c) => if !c.3 {
                1 + leading_count(cm, line + 1, (fuel - 1) as nat)
            } else {
                0
            },
            None => 0,
        }
    }
}

/// Those standalone comments, one per line.
pub open spec fn leading_text(cm: Seq<CommentModel>, line: nat, fuel: nat) -> Seq<char>
    decreases fuel,
{
    if fuel == 0 {
        Seq::empty()
    } else {
        match comment_on(cm, line) {
            Some(c) => if !c.3 {
                c.2 + "\n"@ + leading_text(cm, line + 1, (fuel - 1) as nat)
            } else {
                Seq::empty()
            },
            None => Seq::empty(),
        }
    }
}

/// The import lines; after import `i` comes the trailing comment of source
/// line `i + k`, if there is one there.
pub open spec fn import_section(c: FormatConfig, imps: Seq<ImportStatement>, cm: Seq<CommentModel>, k: nat) -> Seq<char>
    decreases imps.len(),
{
    if imps.len() == 0 {
        Seq::empty()
    } else {
        let line = (imps.len() - 1) as nat + k;
        import_section(c, imps.drop_last(), cm, k) + import_text(imps.last()) + "\n"@ + match comment_on(cm, line) {
            Some(x) => if x.3 {
                "  "@ + x.2
            } else {
                Seq::empty()
            },
            None => Seq::empty(),
        }
    }
}

/// The formatted document: leading standalone comments, the imports with
/// their trailing comments and a blank line after them, the root value, and
/// a final newline when configured and missing.
pub open spec fn format_text(c: FormatConfig, doc: MonDocument, source: Seq<char>) -> Seq<char> {
    let cm = comments_in(source_lines(source));
    let k = leading_count(cm, 0, cm.len());
    let body = leading_text(cm, 0, cm.len()) + import_section(c, doc.imports@, cm, k) + (if doc.imports@.len() > 0 {
        "\n"@
    } else {
        Seq::empty()
    }) + render_value(c, doc.root, 0);
    if c.final_newline && !(body.len() > 0 && body.last() == '\n') {
        body + "\n"@
    } else {
        body
    }
}

impl Formatter {
    /// Formats a parsed document; `source` is the text it was parsed from,
    /// read for its comments. Total: every document has a rendering.
    pub fn format(&self, doc: &MonDocument, source: &str) -> (r: String)
        requires
            height(doc.root) <= usize::MAX,
        ensures
            r@ == format_text(self.config, *doc, source@),
    {
        let comments = extract_comments(source);
        let ghost cm = comments@.map_values(|c: Comment| comment_model(c));
        let ghost total = cm.len();
        let mut output = String::new();
        let mut current_line: usize = 0;
        let mut fuel: usize = comments.len();
        proof {
            assert(output@ + leading_text(cm, 0, total) =~= leading_text(cm, 0, total));
        }
        loop
            invariant_except_break
                cm == comments@.map_values(|c: Comment| comment_model(c)),
                cm == comments_in(source_lines(source@)),
                total == comments@.len(),
                total <= usize::MAX,
                fuel <= total,
                current_line + fuel == total,
                leading_count(cm, 0, total) == current_line + leading_count(cm, current_line as nat, fuel as nat),
                leading_text(cm, 0, total) == output@ + leading_text(cm, current_line as nat, fuel as nat),
            ensures
                cm == comments@.map_values(|c: Comment| comment_model(c)),
                cm == comments_in(source_lines(source@)),
                total == comments@.len(),
                leading_count(cm, 0, total) == current_line,
                leading_text(cm, 0, total) == output@,
            decreases fuel,
        {
            if fuel == 0 {
                proof {
                    assert(output@ + Seq::<char>::empty() =~= output@);
                }
                break;
            }
            match comment_at_line(&comments, current_line) {
                Some(comment) => {
                    if !comment.is_trailing {
                        let ghost before = output@;
                        output.append(comment.text.as_str());
                        output.append("\n");
                        proof {
                            let rest = leading_text(cm, (current_line + 1) as nat, (fuel - 1) as nat);
                            assert(before + (comment.text@ + "\n"@ + rest) =~= output@ + rest);
                        }
                        current_line = current_line + 1;
                        fuel = fuel - 1;
                    } else {
                        proof {
                            assert(output@ + Seq::<char>::empty() =~= output@);
                        }
                        break;
                    }
                },
                None => {
                    proof {
                        assert(output@ + Seq::<char>::empty() =~= output@);
                    }
                    break;
                },
            }
        }
        let ghost head = output@;
        let ghost k = current_line as nat;
        let mut i: usize = 0;
        proof {
            assert(import_section(self.config, doc.imports@.subrange(0, 0), cm, k) =~= Seq::<char>::empty());
            assert(output@ =~= head + Seq::<char>::empty());
        }
        while i < doc.imports.len()
            invariant
                cm == comments@.map_values(|c: Comment| comment_model(c)),
                k == current_line,
                i <= doc.imports@.len(),
                output@ == head + import_section(self.config, doc.imports@.subrange(0, i as int), cm, k),
            decreases doc.imports.len() - i,
        {
            proof {
                assert(doc.imports@.subrange(0, i + 1).drop_last() =~= doc.imports@.subrange(0, i as int));
            }
            let ghost before = output@;
            let text = self.format_import(&doc.imports[i]);
            output.append(text.as_str());
            output.append("\n");
            let ghost mid = output@;
            if i <= usize::MAX - current_line {
                let import_line = i + current_line;
                match comment_at_line(&comments, import_line) {
                    Some(comment) => {
                        if comment.is_trailing {
                            output.append("  ");
                            output.append(comment.text.as_str());
                        }
                    },
                    None => {},
                }
            } else {
                proof {
                    assert forall|j: int| 0 <= j < cm.len() implies (#[trigger] cm[j]).0 < i + k by {
                        assert(cm[j] == comment_model(comments@[j]));
                    }
                    lemma_comment_on_none(cm, (i + k) as nat);
                }
            }
            proof {
                let tail = match comment_on(cm, (i + k) as nat) {
                    Some(x) => if x.3 { "  "@ + x.2 } else { Seq::<char>::empty() },
                    None => Seq::<char>::empty(),
                };
                assert(output@ =~= mid + tail);
                assert(head + import_section(self.config, doc.imports@.subrange(0, i + 1), cm, k) =~= before + text@ + "\n"@ + tail);
            }
            i = i + 1;
        }
        proof {
            assert(doc.imports@.subrange(0, doc.imports@.len() as int) =~= doc.imports@);
        }
        if doc.imports.len() > 0 {
            output.append("\n");
        }
        let root = self.format_value(&doc.root, 0);
        output.append(root.as_str());
        let ghost body = output@;
        proof {
            assert(body =~= leading_text(cm, 0, cm.len()) + import_section(self.config, doc.imports@, cm, k) + (if doc.imports@.len() > 0 {
                "\n"@
            } else {
                Seq::empty()
            }) + render_value(self.config, doc.root, 0));
        }
        if self.config.final_newline {
            let cs = chars_of(output.as_str());
            let ends_with_newline = cs.len() > 0 && cs[cs.len() - 1] == '\n';
            if !ends_with_newline {
                output.append("\n");
            }
        }
        output
    }
}

/// An array whose one-line form is wider than the maximum width is
/// rendered expanded, and the expanded form is final: it is not measured
/// again.
pub proof fn lemma_wide_array_expands(c: FormatConfig, items: Seq<MonValue>, depth: nat)
    requires
        items.len() > 0,
        utf8_len(single_line_array(c, items, depth)) > c.max_line_width,
    ensures
        render_array(c, items, depth) == expanded_array(c, items, depth),
{
}

/// An object whose one-line form is wider than the maximum width is
/// rendered expanded, and the expanded form is final.
pub proof fn lemma_wide_object_expands(c: FormatConfig, ms: Seq<Member>, depth: nat)
    requires
        ms.len() > 0,
        utf8_len(single_line_object(c, ms, depth)) > c.max_line_width,
    ensures
        render_object(c, ms, depth) == expanded_object(c, ms, depth),
{
}

/// Formatting depends on the configuration, the document and the source
/// text alone: equal inputs give equal output.
pub proof fn lemma_format_deterministic(
    c1: FormatConfig,
    c2: FormatConfig,
    d1: MonDocument,
    d2: MonDocument,
    s1: Seq<char>,
    s2: Seq<char>,
)
    requires
        c1 == c2,
        d1 == d2,
        s1 == s2,
    ensures
        format_text(c1, d1, s1) == format_text(c2, d2, s2),
{
}

/// A member of an object, taken in presentation order, is smaller than the
/// object.
pub proof fn lemma_object_arranged_child(v: MonValue, style: crate::formatter::config::KeySortStyle, i: int)
    requires
        v.kind is Object,
        0 <= i < v.kind->Object_0@.len(),
    ensures
        decreases_to!(v => arranged(v.kind->Object_0@, style)[i]),
{
    let ms = v.kind->Object_0;
    assert(decreases_to!(v => v.kind));
    assert(decreases_to!(v.kind => ms));
    assert(decreases_to!(ms => ms@));
    lemma_arranged_smaller(ms@, style, i);
}

/// A member taken in presentation order nests no deeper than the members.
pub proof fn lemma_arranged_height(ms: Seq<Member>, style: crate::formatter::config::KeySortStyle, i: int)
    requires
        0 <= i < ms.len(),
    ensures
        member_height(arranged(ms, style)[i]) <= members_height(ms),
{
    lemma_arranged(ms, style);
    let j = choose|j: int| 0 <= j < ms.len() && ms[j] == arranged(ms, style)[i];
    lemma_member_height(ms, j);
}

} // verus!
