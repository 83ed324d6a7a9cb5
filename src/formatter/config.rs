//! The formatter's configuration and its defaults.
use vstd::prelude::*;

use crate::text::{repeat_text, repeated};

verus! {

#[derive(Debug, Clone, Copy, PartialEq, Eq, Structural)]
pub enum IndentStyle {
    Spaces,
    Tabs,
}

#[derive(Debug, Clone, Copy, PartialEq, Eq, Structural)]
pub enum ObjectStyle {
    /// Always one member per line.
    Expanded,
    /// Always on one line (unless too wide).
    Compact,
    /// Expand past a member count, or when a member holds a container.
    Auto,
}

#[derive(Debug, Clone, Copy, PartialEq, Eq, Structural)]
pub enum ArrayStyle {
    /// Always one item per line.
    Expanded,
    /// Always on one line (unless too wide).
    Compact,
    /// Expand past an item count, or when an item is a container.
    Auto,
}

#[derive(Debug, Clone, Copy, PartialEq, Eq, Structural)]
pub enum KeySortStyle {
    Unsorted,
    Alpha,
    Length,
}

#[derive(Debug, Clone, Copy, PartialEq, Eq, Structural)]
pub enum TrailingCommaStyle {
    Always,
    Never,
    /// Only when the container is rendered over several lines.
    Multiline,
}

#[derive(Debug, Clone, Copy, PartialEq, Eq, Structural)]
pub enum QuoteStyle {
    Double,
    Single,
}

#[derive(Debug, Clone, Copy, PartialEq, Eq, Structural)]
pub enum CommentPlacement {
    Preserve,
    EndOfLine,
    OwnLine,
}

/// A snapshot of every formatting option.
#[derive(Debug, Clone, Copy)]
pub struct FormatConfig {
    pub indent_style: IndentStyle,
    /// Spaces per level when indenting with spaces.
    pub indent_size: usize,
    pub max_line_width: usize,
    pub object_style: ObjectStyle,
    /// Under `Auto`, objects with more members than this expand.
    pub object_expand_threshold: usize,
    pub space_before_colon: bool,
    pub space_after_colon: bool,
    pub array_style: ArrayStyle,
    /// Under `Auto`, arrays with more items than this expand.
    pub array_expand_threshold: usize,
    pub space_in_brackets: bool,
    pub trailing_commas: TrailingCommaStyle,
    /// Accepted, but strings are always written with double quotes.
    pub quote_style: QuoteStyle,
    pub comment_placement: CommentPlacement,
    pub single_line_empty_objects: bool,
    pub single_line_empty_arrays: bool,
    pub final_newline: bool,
    pub align_trailing_comments: bool,
    /// 0 means: choose the column automatically.
    pub comment_alignment_column: usize,
    pub sort_keys: KeySortStyle,
}

fn default_indent_style() -> (r: IndentStyle)
    ensures
        r == IndentStyle::Spaces,
{
    IndentStyle::Spaces
}

fn default_indent_size() -> (r: usize)
    ensures
        r == 4,
{
    4
}

fn default_max_line_width() -> (r: usize)
    ensures
        r == 80,
{
    80
}

fn default_object_style() -> (r: ObjectStyle)
    ensures
        r == ObjectStyle::Auto,
{
    ObjectStyle::Auto
}

fn default_object_expand_threshold() -> (r: usize)
    ensures
        r == 3,
{
    3
}

fn default_space_before_colon() -> (r: bool)
    ensures
        !r,
{
    false
}

fn default_space_after_colon() -> (r: bool)
    ensures
        r,
{
    true
}

fn default_array_style() -> (r: ArrayStyle)
    ensures
        r == ArrayStyle::Auto,
{
    ArrayStyle::Auto
}

fn default_array_expand_threshold() -> (r: usize)
    ensures
        r == 5,
{
    5
}

fn default_space_in_brackets() -> (r: bool)
    ensures
        !r,
{
    false
}

fn default_trailing_commas() -> (r: TrailingCommaStyle)
    ensures
        r == TrailingCommaStyle::Multiline,
{
    TrailingCommaStyle::Multiline
}

fn default_quote_style() -> (r: QuoteStyle)
    ensures
        r == QuoteStyle::Double,
{
    QuoteStyle::Double
}

fn default_comment_placement() -> (r: CommentPlacement)
    ensures
        r == CommentPlacement::Preserve,
{
    CommentPlacement::Preserve
}

fn default_single_line_empty_objects() -> (r: bool)
    ensures
        r,
{
    true
}

fn default_single_line_empty_arrays() -> (r: bool)
    ensures
        r,
{
    true
}

fn default_final_newline() -> (r: bool)
    ensures
        r,
{
    true
}

fn default_align_trailing_comments() -> (r: bool)
    ensures
        !r,
{
    false
}

fn default_comment_alignment_column() -> (r: usize)
    ensures
        r == 0,
{
    0
}

fn default_sort_keys() -> (r: KeySortStyle)
    ensures
        r == KeySortStyle::Unsorted,
{
    KeySortStyle::Unsorted
}

/// The default configuration: four spaces, width 80, `Auto` objects
/// (expanding past 3 members) and arrays (past 5 items), a space after
/// colons only, trailing commas on multi-line containers, empty containers
/// on one line, a final newline, no comment alignment, no key sorting.
pub open spec fn default_config() -> FormatConfig {
    FormatConfig {
        indent_style: IndentStyle::Spaces,
        indent_size: 4,
        max_line_width: 80,
        object_style: ObjectStyle::Auto,
        object_expand_threshold: 3,
        space_before_colon: false,
        space_after_colon: true,
        array_style: ArrayStyle::Auto,
        array_expand_threshold: 5,
        space_in_brackets: false,
        trailing_commas: TrailingCommaStyle::Multiline,
        quote_style: QuoteStyle::Double,
        comment_placement: CommentPlacement::Preserve,
        single_line_empty_objects: true,
        single_line_empty_arrays: true,
        final_newline: true,
        align_trailing_comments: false,
        comment_alignment_column: 0,
        sort_keys: KeySortStyle::Unsorted,
    }
}

impl Default for FormatConfig {
    fn default() -> (r: Self)
        ensures
            r == default_config(),
    {
        FormatConfig {
            indent_style: default_indent_style(),
            indent_size: default_indent_size(),
            max_line_width: default_max_line_width(),
            object_style: default_object_style(),
            object_expand_threshold: default_object_expand_threshold(),
            space_before_colon: default_space_before_colon(),
            space_after_colon: default_space_after_colon(),
            array_style: default_array_style(),
            array_expand_threshold: default_array_expand_threshold(),
            space_in_brackets: default_space_in_brackets(),
            trailing_commas: default_trailing_commas(),
            quote_style: default_quote_style(),
            comment_placement: default_comment_placement(),
            single_line_empty_objects: default_single_line_empty_objects(),
            single_line_empty_arrays: default_single_line_empty_arrays(),
            final_newline: default_final_newline(),
            align_trailing_comments: default_align_trailing_comments(),
            comment_alignment_column: default_comment_alignment_column(),
            sort_keys: default_sort_keys(),
        }
    }
}

/// One level of indentation.
pub open spec fn indent_text(c: FormatConfig) -> Seq<char> {
    match c.indent_style {
        IndentStyle::Spaces => repeated(" "@, c.indent_size as nat),
        IndentStyle::Tabs => "\t"@,
    }
}

impl FormatConfig {
    /// One level of indentation: `indent_size` spaces, or one tab.
    pub fn indent_string(&self) -> (r: String)
        ensures
            r@ == indent_text(*self),
    {
        match self.indent_style {
            IndentStyle::Spaces => repeat_text(" ", self.indent_size),
            IndentStyle::Tabs => String::from_str("\t"),
        }
    }
}

} // verus!
