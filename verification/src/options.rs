//! Parser configuration: which Markdown constructs are recognized and how.
//!
//! [`SyntaxOptions`] is the entry point — pick a preset, optionally tune it with
//! the [`Construct`] builder, then parse. [`Constructs`] is the exhaustive
//! per-feature flag set behind it, and [`ParseOptions`] holds the lexing knobs.
use vstd::prelude::*;

verus! {

/// The full set of syntactic constructs the parser may recognize, one boolean
/// per feature.
#[derive(Clone, Copy, Debug, PartialEq, Eq, Structural)]
pub struct Constructs {
    /// Raw HTML blocks, e.g. a `<div>…</div>` block at the top level.
    pub html_block: bool,
    /// Raw inline HTML, e.g. `<span>` within a paragraph.
    pub html_inline: bool,
    /// Indented code blocks (each line indented four spaces or a tab).
    pub indented_code: bool,
    /// GFM pipe tables: a `| a | b |` row over a `|---|---|` delimiter row.
    pub gfm_table: bool,
    /// GFM task list items: `- [ ]` (unchecked) and `- [x]` (checked).
    pub gfm_task_list_item: bool,
    /// GFM strikethrough: `~~text~~`.
    pub gfm_strikethrough: bool,
    /// GFM literal autolinks: a bare `https://…`, `www.…`, or email becomes a link.
    pub gfm_autolink_literal: bool,
    /// Relaxed URL autolinks: bare `scheme://` URLs are auto-linkified.
    pub relaxed_autolinks: bool,
    /// GFM alerts: a `> [!NOTE]` (TIP/IMPORTANT/WARNING/CAUTION) blockquote.
    pub gfm_alert: bool,
    /// Underline spans: `__text__` (overrides `__`-as-strong).
    pub underline: bool,
    /// Insertions: `++text++`.
    pub insert: bool,
    /// Highlight / "mark" spans: `==text==`.
    pub highlight: bool,
    /// Subscript: a single-tilde span `~text~`.
    pub subscript: bool,
    /// Superscript: `^text^`.
    pub superscript: bool,
    /// Spoiler spans: `||text||`.
    pub spoiler: bool,
    /// Emoji-style shortcodes: `:tada:`.
    pub shortcode: bool,
    /// Description (definition) lists: a term followed by `:`-led details.
    pub description_list: bool,
    /// Footnote definitions: `[^1]: the footnote body`.
    pub footnote_definition: bool,
    /// Footnote references: `[^1]` in running text.
    pub footnote_reference: bool,
    /// Inline footnotes: `^[the note inline]`.
    pub inline_footnote: bool,
    /// Block math: a `$$ … $$` fenced block.
    pub math_block: bool,
    /// Inline math: `$x$` (and the math-code form).
    pub math_inline: bool,
    /// A leading frontmatter block: `---` YAML or `+++` TOML.
    pub frontmatter: bool,
    /// Wikilinks with the display title after the pipe: `[[target|title]]`.
    pub wikilink_title_after_pipe: bool,
    /// Wikilinks with the display title before the pipe: `[[title|target]]`.
    pub wikilink_title_before_pipe: bool,
    /// MDX ESM: `import`/`export` statement lines.
    pub mdx_esm: bool,
    /// MDX block-level `{ … }` expressions.
    pub mdx_expression_block: bool,
    /// MDX inline `{ … }` expressions within text.
    pub mdx_expression_inline: bool,
    /// MDX block-level JSX: `<Component/>` as a block.
    pub mdx_jsx_block: bool,
    /// MDX inline JSX: `<Component/>` within text.
    pub mdx_jsx_inline: bool,
    /// Inline directive: `:name[label]{key=val}`.
    pub directive_text: bool,
    /// Leaf directive: `::name[label]{key=val}` on its own line.
    pub directive_leaf: bool,
    /// Container directive: a `:::name … :::` fenced block.
    pub directive_container: bool,
}

/// The CommonMark baseline construct set.
pub open spec fn spec_constructs_commonmark() -> Constructs {
    Constructs {
        html_block: true,
        html_inline: true,
        indented_code: true,
        gfm_table: false,
        gfm_task_list_item: false,
        gfm_strikethrough: false,
        gfm_autolink_literal: false,
        relaxed_autolinks: false,
        gfm_alert: false,
        underline: false,
        insert: false,
        highlight: false,
        subscript: false,
        superscript: false,
        spoiler: false,
        shortcode: false,
        description_list: false,
        footnote_definition: false,
        footnote_reference: false,
        inline_footnote: false,
        math_block: false,
        math_inline: false,
        frontmatter: false,
        wikilink_title_after_pipe: false,
        wikilink_title_before_pipe: false,
        mdx_esm: false,
        mdx_expression_block: false,
        mdx_expression_inline: false,
        mdx_jsx_block: false,
        mdx_jsx_inline: false,
        directive_text: false,
        directive_leaf: false,
        directive_container: false,
    }
}

/// The GitHub Flavored Markdown construct set.
pub open spec fn spec_constructs_gfm() -> Constructs {
    Constructs {
        html_block: true,
        html_inline: true,
        indented_code: true,
        gfm_table: true,
        gfm_task_list_item: true,
        gfm_strikethrough: true,
        gfm_autolink_literal: true,
        relaxed_autolinks: true,
        gfm_alert: false,
        underline: false,
        insert: false,
        highlight: false,
        subscript: false,
        superscript: false,
        spoiler: false,
        shortcode: false,
        description_list: false,
        footnote_definition: true,
        footnote_reference: true,
        inline_footnote: false,
        math_block: false,
        math_inline: false,
        frontmatter: false,
        wikilink_title_after_pipe: false,
        wikilink_title_before_pipe: false,
        mdx_esm: false,
        mdx_expression_block: false,
        mdx_expression_inline: false,
        mdx_jsx_block: false,
        mdx_jsx_inline: false,
        directive_text: false,
        directive_leaf: false,
        directive_container: false,
    }
}

/// The MDX construct set.
pub open spec fn spec_constructs_mdx() -> Constructs {
    Constructs {
        html_block: false,
        html_inline: false,
        indented_code: false,
        gfm_table: false,
        gfm_task_list_item: false,
        gfm_strikethrough: false,
        gfm_autolink_literal: false,
        relaxed_autolinks: false,
        gfm_alert: false,
        underline: false,
        insert: false,
        highlight: false,
        subscript: false,
        superscript: false,
        spoiler: false,
        shortcode: false,
        description_list: false,
        footnote_definition: false,
        footnote_reference: false,
        inline_footnote: false,
        math_block: false,
        math_inline: false,
        frontmatter: false,
        wikilink_title_after_pipe: false,
        wikilink_title_before_pipe: false,
        mdx_esm: true,
        mdx_expression_block: true,
        mdx_expression_inline: true,
        mdx_jsx_block: true,
        mdx_jsx_inline: true,
        directive_text: false,
        directive_leaf: false,
        directive_container: false,
    }
}

/// The maximal non-MDX construct set.
pub open spec fn spec_constructs_max() -> Constructs {
    Constructs {
        html_block: true,
        html_inline: true,
        indented_code: true,
        gfm_table: true,
        gfm_task_list_item: true,
        gfm_strikethrough: true,
        gfm_autolink_literal: true,
        relaxed_autolinks: true,
        gfm_alert: true,
        underline: false,
        insert: true,
        highlight: true,
        subscript: true,
        superscript: true,
        spoiler: true,
        shortcode: true,
        description_list: true,
        footnote_definition: true,
        footnote_reference: true,
        inline_footnote: true,
        math_block: true,
        math_inline: true,
        frontmatter: true,
        wikilink_title_after_pipe: true,
        wikilink_title_before_pipe: false,
        mdx_esm: false,
        mdx_expression_block: false,
        mdx_expression_inline: false,
        mdx_jsx_block: false,
        mdx_jsx_inline: false,
        directive_text: true,
        directive_leaf: true,
        directive_container: true,
    }
}

impl Constructs {
    /// The CommonMark baseline: raw HTML and indented code, no extensions.
    pub fn commonmark() -> (r: Self)
        ensures
            r == spec_constructs_commonmark(),
    {
        Constructs {
            html_block: true,
            html_inline: true,
            indented_code: true,
            gfm_table: false,
            gfm_task_list_item: false,
            gfm_strikethrough: false,
            gfm_autolink_literal: false,
            relaxed_autolinks: false,
            gfm_alert: false,
            underline: false,
            insert: false,
            highlight: false,
            subscript: false,
            superscript: false,
            spoiler: false,
            shortcode: false,
            description_list: false,
            footnote_definition: false,
            footnote_reference: false,
            inline_footnote: false,
            math_block: false,
            math_inline: false,
            frontmatter: false,
            wikilink_title_after_pipe: false,
            wikilink_title_before_pipe: false,
            mdx_esm: false,
            mdx_expression_block: false,
            mdx_expression_inline: false,
            mdx_jsx_block: false,
            mdx_jsx_inline: false,
            directive_text: false,
            directive_leaf: false,
            directive_container: false,
        }
    }

    /// GitHub Flavored Markdown: CommonMark plus tables, task lists,
    /// strikethrough, literal autolinks, and footnotes.
    pub fn gfm() -> (r: Self)
        ensures
            r == spec_constructs_gfm(),
    {
        let mut constructs = Self::commonmark();
        constructs.gfm_table = true;
        constructs.gfm_task_list_item = true;
        constructs.gfm_strikethrough = true;
        constructs.gfm_autolink_literal = true;
        constructs.relaxed_autolinks = true;
        constructs.footnote_definition = true;
        constructs.footnote_reference = true;
        constructs
    }

    /// MDX: CommonMark with raw HTML and indented code off, and MDX ESM,
    /// expressions, and JSX on.
    pub fn mdx() -> (r: Self)
        ensures
            r == spec_constructs_mdx(),
    {
        let mut constructs = Self::commonmark();
        constructs.html_block = false;
        constructs.html_inline = false;
        constructs.indented_code = false;
        constructs.mdx_esm = true;
        constructs.mdx_expression_block = true;
        constructs.mdx_expression_inline = true;
        constructs.mdx_jsx_block = true;
        constructs.mdx_jsx_inline = true;
        constructs
    }

    /// The maximal non-MDX construct set, and the default dialect.
    pub fn max() -> (r: Self)
        ensures
            r == spec_constructs_max(),
    {
        Constructs {
            html_block: true,
            html_inline: true,
            indented_code: true,
            gfm_table: true,
            gfm_task_list_item: true,
            gfm_strikethrough: true,
            gfm_autolink_literal: true,
            relaxed_autolinks: true,
            gfm_alert: true,
            underline: false,
            insert: true,
            highlight: true,
            subscript: true,
            superscript: true,
            spoiler: true,
            shortcode: true,
            description_list: true,
            footnote_definition: true,
            footnote_reference: true,
            inline_footnote: true,
            math_block: true,
            math_inline: true,
            frontmatter: true,
            wikilink_title_after_pipe: true,
            wikilink_title_before_pipe: false,
            mdx_esm: false,
            mdx_expression_block: false,
            mdx_expression_inline: false,
            mdx_jsx_block: false,
            mdx_jsx_inline: false,
            directive_text: true,
            directive_leaf: true,
            directive_container: true,
        }
    }
}

impl Default for Constructs {
    fn default() -> (r: Self)
        ensures
            r == spec_constructs_max(),
    {
        Self::max()
    }
}

/// Lexing knobs that tune how existing constructs are read or how source text is
/// preserved, separate from which constructs are recognized ([`Constructs`]).
#[derive(Clone, Copy, Debug, PartialEq, Eq, Structural)]
pub struct ParseOptions {
    /// Treat a single `~text~` as strikethrough (in addition to `~~text~~`).
    pub single_tilde_strikethrough: bool,
    /// Keep backslash character escapes as `Escape` nodes.
    pub preserve_character_escapes: bool,
    /// Keep character references as `CharacterReference` nodes.
    pub preserve_character_references: bool,
}

impl Default for ParseOptions {
    fn default() -> (r: Self)
        ensures
            !r.single_tilde_strikethrough,
            !r.preserve_character_escapes,
            !r.preserve_character_references,
    {
        ParseOptions {
            single_tilde_strikethrough: false,
            preserve_character_escapes: false,
            preserve_character_references: false,
        }
    }
}

/// A full syntax configuration: which [`Constructs`] are recognized plus the
/// [`ParseOptions`] lexing knobs.
#[derive(Clone, Debug, PartialEq, Eq, Structural)]
pub struct SyntaxOptions {
    /// Which syntactic constructs are recognized.
    pub constructs: Constructs,
    /// Lexing / source-preservation knobs.
    pub parse: ParseOptions,
}

/// The parse knobs that every preset but GFM uses: all off.
pub open spec fn spec_parse_options_off() -> ParseOptions {
    ParseOptions {
        single_tilde_strikethrough: false,
        preserve_character_escapes: false,
        preserve_character_references: false,
    }
}

/// Whether a construct set is free of contradictions.
pub open spec fn spec_constructs_consistent(c: Constructs) -> bool {
    &&& !((c.mdx_jsx_block || c.mdx_jsx_inline) && (c.html_block || c.html_inline))
    &&& !(c.wikilink_title_after_pipe && c.wikilink_title_before_pipe)
}

/// The outcome of checking a construct set for contradictions.
pub open spec fn spec_validate(c: Constructs) -> Result<(), SyntaxConfigError> {
    if (c.mdx_jsx_block || c.mdx_jsx_inline) && (c.html_block || c.html_inline) {
        Err(SyntaxConfigError::MdxHtmlConflict)
    } else if c.wikilink_title_after_pipe && c.wikilink_title_before_pipe {
        Err(SyntaxConfigError::WikilinkTitleOrderConflict)
    } else {
        Ok(())
    }
}

impl SyntaxOptions {
    /// The strict CommonMark dialect.
    pub fn commonmark() -> (r: Self)
        ensures
            r.constructs == spec_constructs_commonmark(),
            r.parse == spec_parse_options_off(),
    {
        SyntaxOptions { constructs: Constructs::commonmark(), parse: ParseOptions::default() }
    }

    /// GitHub Flavored Markdown (also enables single-tilde strikethrough).
    pub fn gfm() -> (r: Self)
        ensures
            r.constructs == spec_constructs_gfm(),
            r.parse == (ParseOptions {
                single_tilde_strikethrough: true,
                preserve_character_escapes: false,
                preserve_character_references: false,
            }),
    {
        SyntaxOptions {
            constructs: Constructs::gfm(),
            parse: ParseOptions {
                single_tilde_strikethrough: true,
                preserve_character_escapes: false,
                preserve_character_references: false,
            },
        }
    }

    /// The MDX dialect (JSX, expressions, ESM; no raw HTML).
    pub fn mdx() -> (r: Self)
        ensures
            r.constructs == spec_constructs_mdx(),
            r.parse == spec_parse_options_off(),
    {
        SyntaxOptions { constructs: Constructs::mdx(), parse: ParseOptions::default() }
    }

    /// Enable a [`Construct`] on top of these options, returning the modified
    /// options for chaining. Grouped constructs flip every flag in the group.
    pub fn enable(self, construct: Construct) -> (r: Self)
        ensures
            r.constructs == spec_apply(construct, self.constructs, true),
            r.parse == self.parse,
    {
        let mut this = self;
        construct.apply(&mut this.constructs, true);
        this
    }

    /// Disable a [`Construct`], the inverse of [`SyntaxOptions::enable`].
    pub fn disable(self, construct: Construct) -> (r: Self)
        ensures
            r.constructs == spec_apply(construct, self.constructs, false),
            r.parse == self.parse,
    {
        let mut this = self;
        construct.apply(&mut this.constructs, false);
        this
    }

    /// Check for contradictory construct combinations (MDX JSX with raw HTML;
    /// both wikilink title orders).
    pub fn validate(&self) -> (r: Result<(), SyntaxConfigError>)
        ensures
            r == spec_validate(self.constructs),
    {
        if (self.constructs.mdx_jsx_block || self.constructs.mdx_jsx_inline) && (
        self.constructs.html_block || self.constructs.html_inline) {
            return Err(SyntaxConfigError::MdxHtmlConflict);
        }
        if self.constructs.wikilink_title_after_pipe && self.constructs.wikilink_title_before_pipe {
            return Err(SyntaxConfigError::WikilinkTitleOrderConflict);
        }
        Ok(())
    }

    /// Validate and resolve these options into the form the parser consumes.
    pub fn resolve(&self) -> (r: Result<ResolvedSyntaxOptions, SyntaxConfigError>)
        ensures
            match r {
                Ok(res) => spec_validate(self.constructs) is Ok && res.constructs == self.constructs
                    && res.parse == self.parse && res.profile == spec_profile(self.constructs),
                Err(e) => spec_validate(self.constructs) == Err::<(), SyntaxConfigError>(e),
            },
    {
        match self.validate() {
            Err(e) => Err(e),
            Ok(()) => {
                let gfm = Constructs::gfm();
                let profile = if self.constructs == gfm {
                    SyntaxProfile::Gfm
                } else {
                    SyntaxProfile::Other
                };
                Ok(
                    ResolvedSyntaxOptions {
                        constructs: self.constructs,
                        parse: self.parse,
                        profile,
                    },
                )
            },
        }
    }
}

impl Default for SyntaxOptions {
    fn default() -> (r: Self)
        ensures
            r.constructs == spec_constructs_max(),
            r.parse == spec_parse_options_off(),
    {
        SyntaxOptions { constructs: Constructs::max(), parse: ParseOptions::default() }
    }
}

/// Which dialect family a resolved configuration belongs to; a few GFM-specific
/// lexing quirks apply only to the exact GFM construct set.
#[derive(Clone, Copy, Debug, PartialEq, Eq, Structural)]
pub enum SyntaxProfile {
    Gfm,
    Other,
}

/// The profile of a construct set: GFM exactly when it is the GFM preset.
pub open spec fn spec_profile(c: Constructs) -> SyntaxProfile {
    if c == spec_constructs_gfm() {
        SyntaxProfile::Gfm
    } else {
        SyntaxProfile::Other
    }
}

/// A validated configuration, as the parser consumes it.
#[derive(Clone, Debug, PartialEq, Eq, Structural)]
pub struct ResolvedSyntaxOptions {
    pub constructs: Constructs,
    pub parse: ParseOptions,
    pub profile: SyntaxProfile,
}

/// Where a wikilink's display title sits relative to the `|` separator.
#[derive(Clone, Copy, Debug, PartialEq, Eq, Structural)]
pub enum WikiLinkOrder {
    /// `[[target|title]]` — the Obsidian convention, and the maximal default.
    TitleAfterPipe,
    /// `[[title|target]]`.
    TitleBeforePipe,
}

/// A discoverable front door for toggling a syntax feature via
/// [`SyntaxOptions::enable`] / [`SyntaxOptions::disable`].
#[derive(Clone, Copy, Debug, PartialEq, Eq, Structural)]
#[non_exhaustive]
pub enum Construct {
    Table,
    TaskList,
    Strikethrough,
    Autolink,
    Alert,
    Footnotes,
    Math,
    Frontmatter,
    Underline,
    Insert,
    Highlight,
    Subscript,
    Superscript,
    Spoiler,
    Shortcode,
    DescriptionList,
    Wikilinks(WikiLinkOrder),
    MdxJsx,
    MdxExpressions,
    MdxEsm,
    Directives,
}

/// The construct set after switching `construct` on (`on`) or off.
pub open spec fn spec_apply(construct: Construct, c: Constructs, on: bool) -> Constructs {
    match construct {
        Construct::Table => Constructs { gfm_table: on, ..c },
        Construct::TaskList => Constructs { gfm_task_list_item: on, ..c },
        Construct::Strikethrough => Constructs { gfm_strikethrough: on, ..c },
        Construct::Autolink => Constructs { gfm_autolink_literal: on, relaxed_autolinks: on, ..c },
        Construct::Alert => Constructs { gfm_alert: on, ..c },
        Construct::Footnotes => Constructs {
            footnote_definition: on,
            footnote_reference: on,
            inline_footnote: on,
            ..c
        },
        Construct::Math => Constructs { math_block: on, math_inline: on, ..c },
        Construct::Frontmatter => Constructs { frontmatter: on, ..c },
        Construct::Underline => Constructs { underline: on, ..c },
        Construct::Insert => Constructs { insert: on, ..c },
        Construct::Highlight => Constructs { highlight: on, ..c },
        Construct::Subscript => Constructs { subscript: on, ..c },
        Construct::Superscript => Constructs { superscript: on, ..c },
        Construct::Spoiler => Constructs { spoiler: on, ..c },
        Construct::Shortcode => Constructs { shortcode: on, ..c },
        Construct::DescriptionList => Constructs { description_list: on, ..c },
        Construct::Wikilinks(order) => Constructs {
            wikilink_title_after_pipe: on && order == WikiLinkOrder::TitleAfterPipe,
            wikilink_title_before_pipe: on && order == WikiLinkOrder::TitleBeforePipe,
            ..c
        },
        Construct::MdxJsx => Constructs { mdx_jsx_block: on, mdx_jsx_inline: on, ..c },
        Construct::MdxExpressions => Constructs {
            mdx_expression_block: on,
            mdx_expression_inline: on,
            ..c
        },
        Construct::MdxEsm => Constructs { mdx_esm: on, ..c },
        Construct::Directives => Constructs {
            directive_text: on,
            directive_leaf: on,
            directive_container: on,
            ..c
        },
    }
}

impl Construct {
    fn applied(self, old_c: Constructs, on: bool) -> (r: Constructs)
        ensures
            r == spec_apply(self, old_c, on),
    {
        match self {
            Construct::Table => Constructs { gfm_table: on, ..old_c },
            Construct::TaskList => Constructs { gfm_task_list_item: on, ..old_c },
            Construct::Strikethrough => Constructs { gfm_strikethrough: on, ..old_c },
            Construct::Autolink => Constructs { gfm_autolink_literal: on, relaxed_autolinks: on, ..old_c },
            Construct::Alert => Constructs { gfm_alert: on, ..old_c },
            Construct::Footnotes => Constructs {
                footnote_definition: on,
                footnote_reference: on,
                inline_footnote: on,
                ..old_c
            },
            Construct::Math => Constructs { math_block: on, math_inline: on, ..old_c },
            Construct::Frontmatter => Constructs { frontmatter: on, ..old_c },
            Construct::Underline => Constructs { underline: on, ..old_c },
            Construct::Insert => Constructs { insert: on, ..old_c },
            Construct::Highlight => Constructs { highlight: on, ..old_c },
            Construct::Subscript => Constructs { subscript: on, ..old_c },
            Construct::Superscript => Constructs { superscript: on, ..old_c },
            Construct::Spoiler => Constructs { spoiler: on, ..old_c },
            Construct::Shortcode => Constructs { shortcode: on, ..old_c },
            Construct::DescriptionList => Constructs { description_list: on, ..old_c },
            Construct::Wikilinks(order) => {
                let after = match order {
                    WikiLinkOrder::TitleAfterPipe => true,
                    WikiLinkOrder::TitleBeforePipe => false,
                };
                Constructs {
                    wikilink_title_after_pipe: on && after,
                    wikilink_title_before_pipe: on && !after,
                    ..old_c
                }
            },
            Construct::MdxJsx => Constructs { mdx_jsx_block: on, mdx_jsx_inline: on, ..old_c },
            Construct::MdxExpressions => Constructs {
                mdx_expression_block: on,
                mdx_expression_inline: on,
                ..old_c
            },
            Construct::MdxEsm => Constructs { mdx_esm: on, ..old_c },
            Construct::Directives => Constructs {
                directive_text: on,
                directive_leaf: on,
                directive_container: on,
                ..old_c
            },
        }
    }

    fn apply(self, c: &mut Constructs, on: bool)
        ensures
            *final(c) == spec_apply(self, *old(c), on),
    {
        *c = self.applied(*c, on);
    }
}

/// A contradictory [`SyntaxOptions`] configuration, reported by
/// [`SyntaxOptions::validate`].
#[derive(Clone, Copy, Debug, PartialEq, Eq, Structural)]
pub enum SyntaxConfigError {
    /// MDX JSX and raw HTML were both enabled; they both claim `<`.
    MdxHtmlConflict,
    /// Both wikilink title orders (before- and after-pipe) were enabled.
    WikilinkTitleOrderConflict,
}

impl SyntaxConfigError {
    /// A human-readable description of the conflict.
    pub fn message(&self) -> (r: String)
        ensures
            r@ == (match *self {
                SyntaxConfigError::MdxHtmlConflict => "MDX JSX and raw HTML syntax cannot both be enabled"@,
                SyntaxConfigError::WikilinkTitleOrderConflict => "wikilink title-before-pipe and title-after-pipe cannot both be enabled"@,
            }),
    {
        match self {
            SyntaxConfigError::MdxHtmlConflict => "MDX JSX and raw HTML syntax cannot both be enabled".to_owned(),
            SyntaxConfigError::WikilinkTitleOrderConflict => "wikilink title-before-pipe and title-after-pipe cannot both be enabled".to_owned(),
        }
    }
}

/// Every preset configuration is free of contradictions.
pub proof fn lemma_presets_validate()
    ensures
        spec_validate(spec_constructs_commonmark()) is Ok,
        spec_validate(spec_constructs_gfm()) is Ok,
        spec_validate(spec_constructs_mdx()) is Ok,
        spec_validate(spec_constructs_max()) is Ok,
{
}

/// Disabling a construct never introduces a contradiction.
pub proof fn lemma_disable_keeps_consistent(construct: Construct, c: Constructs)
    requires
        spec_validate(c) is Ok,
    ensures
        spec_validate(spec_apply(construct, c, false)) is Ok,
{
}

} // verus!
