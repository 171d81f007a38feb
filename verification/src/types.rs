//! Positions, symbols and per-file data shared by the whole library.
use std::sync::Arc;

use tower_lsp::lsp_types::Url;
use vstd::prelude::*;

use crate::text::{
    after_last, begins_with, chars_of, eq_chars, eq_str, find_last, slice_of, starts_with,
};
use crate::uri::url_text;

verus! {

/// A place in a document: line and UTF-16 column, both from zero.
#[derive(Debug, Clone, Copy, PartialEq, Eq, Structural)]
pub struct Position {
    pub line: u32,
    pub character: u32,
}

/// The stretch of a document from `start` up to `end`.
#[derive(Debug, Clone, Copy, PartialEq, Eq, Structural)]
pub struct Range {
    pub start: Position,
    pub end: Position,
}

/// A range in the document named by `uri`.
#[derive(Debug, PartialEq, Eq)]
pub struct Location {
    pub uri: Url,
    pub range: Range,
}

/// What a [`Location`] says.
#[verifier::ext_equal]
pub struct LocationView {
    pub uri: Seq<char>,
    pub range: Range,
}

impl View for Location {
    type V = LocationView;

    open spec fn view(&self) -> LocationView {
        LocationView { uri: url_text(self.uri), range: self.range }
    }
}

impl Clone for Location {
    fn clone(&self) -> (r: Self)
        ensures
            r@ == self@,
    {
        Location { uri: self.uri.clone(), range: self.range }
    }
}

/// The empty range at `line` and `character`.
pub open spec fn point(line: u32, character: u32) -> Range {
    let p = Position { line, character };
    Range { start: p, end: p }
}

/// A position within a document used by the infer functions.
///
/// `utf16_col` counts UTF-16 code units, as [`Position::character`] does.
#[derive(Debug, Clone, Copy, PartialEq, Eq, Structural)]
pub struct CursorPos {
    pub line: usize,
    pub utf16_col: usize,
}

/// Kotlin/Java visibility of a declared symbol.
#[derive(Debug, Clone, Copy, PartialEq, Eq, Structural)]
pub enum Visibility {
    Public,
    Internal,
    Protected,
    Private,
}

impl Default for Visibility {
    fn default() -> (r: Self)
        ensures
            r == Visibility::Public,
    {
        Visibility::Public
    }
}

/// The LSP number of a symbol kind.
#[derive(Debug, Clone, Copy, PartialEq, Eq, Structural)]
pub struct SymbolKind {
    pub code: i32,
}

/// A symbol definition stored in the index.
#[derive(Debug, Clone)]
pub struct SymbolEntry {
    pub name: String,
    pub kind: SymbolKind,
    pub visibility: Visibility,
    /// Span of the entire declaration.
    pub range: Range,
    /// Span of the identifier alone.
    pub selection_range: Range,
    /// Short signature shown in hover and symbol lists; empty when not computed.
    pub detail: String,
    /// Names of the generic type parameters; empty for non-generic symbols.
    pub type_params: Vec<String>,
    /// Receiver type name of an extension function, without generics; else empty.
    pub extension_receiver: String,
}

/// One import statement of a Kotlin file.
#[derive(Debug, Clone)]
pub struct ImportEntry {
    /// Fully-qualified path without the trailing `.*`.
    pub full_path: String,
    /// The name usable locally: last segment, alias, or `"*"` for star.
    pub local_name: String,
    /// True for `import com.example.*`.
    pub is_star: bool,
}

/// The part of a dotted path after its last dot.
pub open spec fn last_segment_of(path: Seq<char>) -> Seq<char> {
    path.skip(after_last(path, '.'))
}

impl ImportEntry {
    /// The import brings the symbol `name` of `package` into view: a star import of that very
    /// package, or an import of a symbol of that name, nested or not, inside it.
    pub open spec fn covers_spec(&self, package: Seq<char>, name: Seq<char>) -> bool {
        if self.is_star {
            self.full_path@ == package
        } else {
            starts_with(self.full_path@, package.push('.')) && last_segment_of(self.full_path@)
                == name
        }
    }

    /// Whether the import covers the symbol `name` declared in `package`.
    pub fn covers(&self, package: &str, name: &str) -> (r: bool)
        ensures
            r == self.covers_spec(package@, name@),
    {
        if self.is_star {
            return eq_str(self.full_path.as_str(), package);
        }
        let path = chars_of(self.full_path.as_str());
        let mut prefix = package.to_owned();
        prefix.push('.');
        let cut: usize = find_last(path.as_slice(), '.');
        let last = slice_of(path.as_slice(), cut, path.len());
        assert(last@ =~= last_segment_of(self.full_path@));
        begins_with(path.as_slice(), prefix.as_str()) && eq_chars(
            last.as_slice(),
            chars_of(name).as_slice(),
        )
    }
}

/// A structural syntax error found by the parser.
#[derive(Debug, Clone)]
pub struct SyntaxError {
    pub range: Range,
    pub message: String,
}

/// All data kept in memory for one source file.
#[derive(Debug, Clone)]
pub struct FileData {
    pub symbols: Vec<SymbolEntry>,
    pub imports: Vec<ImportEntry>,
    /// Package declaration, e.g. `"com.example.app"`.
    pub package: Option<String>,
    /// Raw source lines.
    pub lines: Arc<Vec<String>>,
    /// Lower-cased identifiers found before `:` on non-comment lines.
    pub declared_names: Vec<String>,
    /// Supertypes: line of the class name, base name of the supertype, type arguments.
    pub supers: Vec<(u32, String, Vec<String>)>,
    /// Structural syntax errors.
    pub syntax_errors: Vec<SyntaxError>,
}

impl Default for FileData {
    fn default() -> (r: Self)
        ensures
            r.symbols@.len() == 0,
            r.imports@.len() == 0,
            r.package is None,
            r.lines@.len() == 0,
            r.declared_names@.len() == 0,
            r.supers@.len() == 0,
            r.syntax_errors@.len() == 0,
    {
        FileData {
            symbols: Vec::new(),
            imports: Vec::new(),
            package: None,
            lines: Arc::new(Vec::new()),
            declared_names: Vec::new(),
            supers: Vec::new(),
            syntax_errors: Vec::new(),
        }
    }
}

/// Result of parsing a single file.
#[derive(Debug, Clone)]
pub struct FileIndexResult {
    /// File that was parsed.
    pub uri: Url,
    /// Parsed file data.
    pub data: FileData,
    /// Supertype name and location of the implementing class.
    pub supertypes: Vec<(String, Location)>,
    /// Content hash for cache invalidation.
    pub content_hash: u64,
    /// Parse error, if parsing failed.
    pub error: Option<String>,
}

/// Statistics about an indexing run.
#[derive(Debug, Clone)]
pub struct IndexStats {
    /// Total files discovered.
    pub files_discovered: usize,
    /// Files loaded from cache.
    pub cache_hits: usize,
    /// Files actually parsed.
    pub files_parsed: usize,
    /// Total symbols extracted.
    pub symbols_extracted: usize,
    /// Total packages found.
    pub packages_found: usize,
    /// Parse errors encountered.
    pub errors: usize,
}

impl Default for IndexStats {
    fn default() -> (r: Self)
        ensures
            r == (IndexStats {
                files_discovered: 0,
                cache_hits: 0,
                files_parsed: 0,
                symbols_extracted: 0,
                packages_found: 0,
                errors: 0,
            }),
    {
        IndexStats {
            files_discovered: 0,
            cache_hits: 0,
            files_parsed: 0,
            symbols_extracted: 0,
            packages_found: 0,
            errors: 0,
        }
    }
}

/// Result of indexing an entire workspace.
#[derive(Debug, Clone)]
pub struct WorkspaceIndexResult {
    /// All successfully parsed files.
    pub files: Vec<FileIndexResult>,
    /// Statistics about the indexing run.
    pub stats: IndexStats,
    /// Workspace root that was indexed.
    pub workspace_root: String,
    /// True if the run was aborted midway: the result is partial and must not be applied.
    pub aborted: bool,
    /// True when the workspace was fully scanned.
    pub complete_scan: bool,
}

} // verus!
