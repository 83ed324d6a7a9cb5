//! Named style presets.
use vstd::prelude::*;

use crate::formatter::config::{
    default_config, ArrayStyle, FormatConfig, IndentStyle, ObjectStyle, TrailingCommaStyle,
};
use crate::text::{lowercase_of, same_text, to_lowercase};

verus! {

impl FormatConfig {
    /// Two spaces, compact objects and arrays, trailing commas on multi-line
    /// containers.
    pub fn google_style() -> (r: Self)
        ensures
            r == preset(Style::Google),
    {
        FormatConfig {
            indent_size: 2,
            object_style: ObjectStyle::Compact,
            array_style: ArrayStyle::Compact,
            trailing_commas: TrailingCommaStyle::Multiline,
            ..Default::default()
        }
    }

    /// Two spaces, everything expanded, trailing commas always.
    pub fn mozilla_style() -> (r: Self)
        ensures
            r == preset(Style::Mozilla),
    {
        FormatConfig {
            indent_size: 2,
            object_style: ObjectStyle::Expanded,
            array_style: ArrayStyle::Expanded,
            trailing_commas: TrailingCommaStyle::Always,
            ..Default::default()
        }
    }

    /// Two spaces, automatic expansion, a space after colons.
    pub fn airbnb_style() -> (r: Self)
        ensures
            r == preset(Style::Airbnb),
    {
        FormatConfig {
            indent_size: 2,
            object_style: ObjectStyle::Auto,
            array_style: ArrayStyle::Auto,
            trailing_commas: TrailingCommaStyle::Multiline,
            space_after_colon: true,
            ..Default::default()
        }
    }

    /// Tabs, compact, no trailing commas, width 100.
    pub fn linux_style() -> (r: Self)
        ensures
            r == preset(Style::Linux),
    {
        FormatConfig {
            indent_style: IndentStyle::Tabs,
            object_style: ObjectStyle::Compact,
            array_style: ArrayStyle::Compact,
            trailing_commas: TrailingCommaStyle::Never,
            max_line_width: 100,
            ..Default::default()
        }
    }

    /// Four spaces, automatic expansion, width 100.
    pub fn rust_style() -> (r: Self)
        ensures
            r == preset(Style::Rust),
    {
        FormatConfig {
            indent_size: 4,
            object_style: ObjectStyle::Auto,
            array_style: ArrayStyle::Auto,
            trailing_commas: TrailingCommaStyle::Multiline,
            max_line_width: 100,
            ..Default::default()
        }
    }

    /// Two spaces, automatic expansion, width 80.
    pub fn prettier_style() -> (r: Self)
        ensures
            r == preset(Style::Prettier),
    {
        FormatConfig {
            indent_size: 2,
            object_style: ObjectStyle::Auto,
            array_style: ArrayStyle::Auto,
            trailing_commas: TrailingCommaStyle::Multiline,
            max_line_width: 80,
            ..Default::default()
        }
    }
}

/// The style presets.
#[derive(Debug, Clone, Copy, PartialEq, Eq, Structural)]
pub enum Style {
    Google,
    Mozilla,
    Airbnb,
    Linux,
    Rust,
    Prettier,
    Default,
}

/// The configuration of each preset.
pub open spec fn preset(s: Style) -> FormatConfig {
    match s {
        Style::Google => FormatConfig {
                    indent_size: 2,
                    object_style: ObjectStyle::Compact,
                    array_style: ArrayStyle::Compact,
                    trailing_commas: TrailingCommaStyle::Multiline,
                    ..default_config()
                },
        Style::Mozilla => FormatConfig {
                    indent_size: 2,
                    object_style: ObjectStyle::Expanded,
                    array_style: ArrayStyle::Expanded,
                    trailing_commas: TrailingCommaStyle::Always,
                    ..default_config()
                },
        Style::Airbnb => FormatConfig {
                    indent_size: 2,
                    object_style: ObjectStyle::Auto,
                    array_style: ArrayStyle::Auto,
                    trailing_commas: TrailingCommaStyle::Multiline,
                    space_after_colon: true,
                    ..default_config()
                },
        Style::Linux => FormatConfig {
                    indent_style: IndentStyle::Tabs,
                    object_style: ObjectStyle::Compact,
                    array_style: ArrayStyle::Compact,
                    trailing_commas: TrailingCommaStyle::Never,
                    max_line_width: 100,
                    ..default_config()
                },
        Style::Rust => FormatConfig {
                    indent_size: 4,
                    object_style: ObjectStyle::Auto,
                    array_style: ArrayStyle::Auto,
                    trailing_commas: TrailingCommaStyle::Multiline,
                    max_line_width: 100,
                    ..default_config()
                },
        Style::Prettier => FormatConfig {
                    indent_size: 2,
                    object_style: ObjectStyle::Auto,
                    array_style: ArrayStyle::Auto,
                    trailing_commas: TrailingCommaStyle::Multiline,
                    max_line_width: 80,
                    ..default_config()
                },
        Style::Default => default_config(),
    }
}

/// The preset named `name` (already lowercase), if any.
pub open spec fn style_named(name: Seq<char>) -> Option<Style> {
    if name == "google"@ {
        Some(Style::Google)
    } else if name == "mozilla"@ {
        Some(Style::Mozilla)
    } else if name == "airbnb"@ {
        Some(Style::Airbnb)
    } else if name == "linux"@ {
        Some(Style::Linux)
    } else if name == "rust"@ {
        Some(Style::Rust)
    } else if name == "prettier"@ {
        Some(Style::Prettier)
    } else if name == "default"@ {
        Some(Style::Default)
    } else {
        None
    }
}

impl Style {
    /// The configuration of the preset.
    pub fn to_config(self) -> (r: FormatConfig)
        ensures
            r == preset(self),
    {
        match self {
            Style::Google => FormatConfig::google_style(),
            Style::Mozilla => FormatConfig::mozilla_style(),
            Style::Airbnb => FormatConfig::airbnb_style(),
            Style::Linux => FormatConfig::linux_style(),
            Style::Rust => FormatConfig::rust_style(),
            Style::Prettier => FormatConfig::prettier_style(),
            Style::Default => FormatConfig::default(),
        }
    }

    /// The preset with this name, in any letter case.
    pub fn from_str(s: &str) -> (r: Option<Self>)
        ensures
            r == style_named(lowercase_of(s@)),
    {
        let lower = to_lowercase(s);
        Style::from_lowercase(lower.as_str())
    }

    /// The preset named exactly `t` (a lowercase name).
    pub fn from_lowercase(t: &str) -> (r: Option<Self>)
        ensures
            r == style_named(t@),
    {
        if same_text(t, "google") {
            Some(Style::Google)
        } else if same_text(t, "mozilla") {
            Some(Style::Mozilla)
        } else if same_text(t, "airbnb") {
            Some(Style::Airbnb)
        } else if same_text(t, "linux") {
            Some(Style::Linux)
        } else if same_text(t, "rust") {
            Some(Style::Rust)
        } else if same_text(t, "prettier") {
            Some(Style::Prettier)
        } else if same_text(t, "default") {
            Some(Style::Default)
        } else {
            None
        }
    }
}

} // verus!
