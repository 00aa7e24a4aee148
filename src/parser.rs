use vstd::prelude::*;

use crate::types::{opt_view, Language};

verus! {

/// Options of a repository walk.
#[derive(Clone, Debug)]
pub struct ParserConfig {
    /// Whether to descend into subdirectories.
    pub recursive: bool,
    /// Whether to follow symbolic links.
    pub follow_links: bool,
    /// Largest depth to descend to; 0 means no limit.
    pub max_depth: usize,
    /// Whether to skip entries that fail to be read instead of stopping.
    pub continue_on_error: bool,
    /// Extra ignore patterns in gitignore syntax; a leading `!` negates.
    pub ignore_patterns: Vec<String>,
    /// Whether `.gitignore`, the global ignore file and git's exclude file apply.
    pub use_gitignore_files: bool,
}

impl Default for ParserConfig {
    fn default() -> (r: Self)
        ensures
            r.recursive,
            !r.follow_links,
            r.max_depth == 0,
            !r.continue_on_error,
            r.ignore_patterns@.len() == 0,
            r.use_gitignore_files,
    {
        ParserConfig {
            recursive: true,
            follow_links: false,
            max_depth: 0,
            continue_on_error: false,
            ignore_patterns: Vec::new(),
            use_gitignore_files: true,
        }
    }
}

impl ParserConfig {
    pub fn recursive(self, recursive: bool) -> (r: Self)
        ensures
            r == (ParserConfig { recursive, ..self }),
    {
        ParserConfig { recursive, ..self }
    }

    pub fn follow_links(self, follow_links: bool) -> (r: Self)
        ensures
            r == (ParserConfig { follow_links, ..self }),
    {
        ParserConfig { follow_links, ..self }
    }

    pub fn max_depth(self, max_depth: usize) -> (r: Self)
        ensures
            r == (ParserConfig { max_depth, ..self }),
    {
        ParserConfig { max_depth, ..self }
    }

    pub fn continue_on_error(self, continue_on_error: bool) -> (r: Self)
        ensures
            r == (ParserConfig { continue_on_error, ..self }),
    {
        ParserConfig { continue_on_error, ..self }
    }

    pub fn ignore_patterns(self, ignore_patterns: Vec<String>) -> (r: Self)
        ensures
            r == (ParserConfig { ignore_patterns, ..self }),
    {
        ParserConfig { ignore_patterns, ..self }
    }

    pub fn use_gitignore_files(self, use_gitignore_files: bool) -> (r: Self)
        ensures
            r == (ParserConfig { use_gitignore_files, ..self }),
    {
        ParserConfig { use_gitignore_files, ..self }
    }
}

/// A parameter type seen in a function's signature, waiting to be resolved to
/// the node that defines it.
#[derive(Debug, Clone)]
pub struct FuncParamType {
    /// The bare type name, without package qualifier.
    pub type_ident: String,
    /// The file or directory node expected to hold the definition, where known.
    pub package_name: Option<String>,
}

/// The value of a parameter-type record.
pub struct ParamTypeModel {
    pub type_ident: Seq<char>,
    pub package_name: Option<Seq<char>>,
}

impl View for FuncParamType {
    type V = ParamTypeModel;

    open spec fn view(&self) -> ParamTypeModel {
        ParamTypeModel { type_ident: self.type_ident@, package_name: opt_view(self.package_name) }
    }
}

impl FuncParamType {
    /// A copy of this record.
    pub fn duplicate(&self) -> (r: FuncParamType)
        ensures
            r@ == self@,
    {
        FuncParamType {
            type_ident: self.type_ident.clone(),
            package_name: crate::types::copy_opt(&self.package_name),
        }
    }
}

/// An import whose target node is not known yet.
#[derive(Debug, Clone)]
pub struct PendingImport {
    pub language: Language,
    /// The repository-relative path of the imported module.
    pub source_path: String,
    /// The imported symbol; `None` for a whole-module import, `export default`
    /// for a default import.
    pub symbol: Option<String>,
    /// The local name bound by the import.
    pub alias: Option<String>,
}

/// The value of a pending import.
pub struct PendingImportModel {
    pub language: Language,
    pub source_path: Seq<char>,
    pub symbol: Option<Seq<char>>,
    pub alias: Option<Seq<char>>,
}

impl View for PendingImport {
    type V = PendingImportModel;

    open spec fn view(&self) -> PendingImportModel {
        PendingImportModel {
            language: self.language,
            source_path: self.source_path@,
            symbol: opt_view(self.symbol),
            alias: opt_view(self.alias),
        }
    }
}

/// The local name an import binds: its alias, else its symbol.
pub open spec fn import_name_of(imp: PendingImportModel) -> Seq<char> {
    match imp.alias {
        Some(a) => a,
        None => imp.symbol.unwrap(),
    }
}

impl PendingImport {
    /// The local name this import binds: its alias where it has one, else the
    /// imported symbol.
    pub fn import_name(&self) -> (r: String)
        requires
            self.alias is Some || self.symbol is Some,
        ensures
            r@ == import_name_of(self@),
    {
        match &self.alias {
            Some(alias) => alias.clone(),
            None => match &self.symbol {
                Some(symbol) => symbol.clone(),
                None => String::new(),
            },
        }
    }
}

} // verus!
