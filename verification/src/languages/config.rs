//! What extraction is asked for.
use vstd::prelude::*;
use crate::text;

verus! {

/// The decorator that marks a method as a gRPC handler where none is configured.
pub const DEFAULT_CONTROLLER_ANNOTATION: &'static str = "@GrpcMethod";

/// A directory or a file that the settings name, as it is written and as it reads with the path
/// of the workspace root taken off its front. Only the workspace knows its root, so whoever reads
/// the settings fills in both. Paths are matched by what is left of them.
#[derive(Debug, Clone, PartialEq, Eq)]
pub struct RootedPath {
    pub written: String,
    pub from_root: String,
}

/// A directory or a file that the settings name, as a mathematical value.
#[verifier::ext_equal]
pub struct RootedView {
    pub written: Seq<char>,
    pub from_root: Seq<char>,
}

impl View for RootedPath {
    type V = RootedView;

    open spec fn view(&self) -> RootedView {
        RootedView { written: self.written@, from_root: self.from_root@ }
    }
}

/// Directories or files that the settings name, each by its view.
pub open spec fn rooted_view(v: Seq<RootedPath>) -> Seq<RootedView> {
    v.map_values(|p: RootedPath| p@)
}

fn copy_rooted(v: &Vec<RootedPath>) -> (r: Vec<RootedPath>)
    ensures
        rooted_view(r@) == rooted_view(v@),
{
    let mut out: Vec<RootedPath> = Vec::new();
    let mut i: usize = 0;
    assert(rooted_view(out@) == rooted_view(v@).take(0));
    while i < v.len()
        invariant
            0 <= i <= v@.len(),
            rooted_view(out@) == rooted_view(v@).take(i as int),
        decreases v@.len() - i,
    {
        let ghost before = out@;
        let copied = RootedPath {
            written: text::copy(v[i].written.as_str()),
            from_root: text::copy(v[i].from_root.as_str()),
        };
        out.push(copied);
        assert(rooted_view(out@) == rooted_view(before).push(copied@));
        assert(rooted_view(v@)[i as int] == v@[i as int]@);
        i += 1;
        assert(rooted_view(v@).take(i as int) == rooted_view(v@).take(i - 1).push(rooted_view(v@)[i - 1]));
    }
    assert(rooted_view(v@).take(i as int) == rooted_view(v@));
    out
}

/// The settings for gRPC.
#[derive(Debug, Clone)]
pub struct GrpcConfig {
    /// The directories that hold `.proto` files.
    pub proto_dirs: Vec<RootedPath>,
    /// The decorators that mark a method as a gRPC handler.
    pub controller_annotations: Vec<String>,
    /// Whether methods are named after their services too.
    pub canonical_fqcn_projection: bool,
}

/// The settings for OpenAPI.
#[derive(Debug, Clone)]
pub struct OpenApiConfig {
    /// The files that are OpenAPI specs.
    pub spec_files: Vec<RootedPath>,
}

/// The settings for AsyncAPI.
#[derive(Debug, Clone)]
pub struct AsyncApiConfig {
    /// The files that are AsyncAPI specs.
    pub spec_files: Vec<RootedPath>,
    /// Whether a list of strings under `topics` declares topics too.
    pub infer_string_topics: bool,
}

/// The settings for contracts.
#[derive(Debug, Clone)]
pub struct ContractsConfig {
    pub grpc: Option<GrpcConfig>,
    pub openapi: Option<OpenApiConfig>,
    pub asyncapi: Option<AsyncApiConfig>,
}

/// What extraction is asked for.
#[derive(Debug, Clone)]
pub struct ExtractConfig {
    /// The directories that `.proto` files are extracted from; all, if there are none.
    pub proto_dirs: Vec<RootedPath>,
    /// The decorators that mark a method as a gRPC handler.
    pub controller_annotations: Vec<String>,
    /// Whether a method is named `Service.Method`, and not by its own name alone.
    pub canonical_fqcn_projection: bool,
    /// The files that are OpenAPI specs; told by name and content, if there are none.
    pub openapi_spec_files: Vec<RootedPath>,
    /// The files that are AsyncAPI specs; told by name and content, if there are none.
    pub asyncapi_spec_files: Vec<RootedPath>,
    /// Whether a list of strings under `topics` declares topics too.
    pub infer_string_topics: bool,
}

/// What extraction is asked for, as a mathematical value.
#[verifier::ext_equal]
pub struct ExtractConfigView {
    pub proto_dirs: Seq<RootedView>,
    pub controller_annotations: Seq<Seq<char>>,
    pub canonical_fqcn_projection: bool,
    pub openapi_spec_files: Seq<RootedView>,
    pub asyncapi_spec_files: Seq<RootedView>,
    pub infer_string_topics: bool,
}

impl View for ExtractConfig {
    type V = ExtractConfigView;

    open spec fn view(&self) -> ExtractConfigView {
        ExtractConfigView {
            proto_dirs: rooted_view(self.proto_dirs@),
            controller_annotations: text::strings(self.controller_annotations@),
            canonical_fqcn_projection: self.canonical_fqcn_projection,
            openapi_spec_files: rooted_view(self.openapi_spec_files@),
            asyncapi_spec_files: rooted_view(self.asyncapi_spec_files@),
            infer_string_topics: self.infer_string_topics,
        }
    }
}

/// The default: everything is extracted.
pub open spec fn default_config() -> ExtractConfigView {
    ExtractConfigView {
        proto_dirs: Seq::empty(),
        controller_annotations: seq![DEFAULT_CONTROLLER_ANNOTATION@],
        canonical_fqcn_projection: true,
        openapi_spec_files: Seq::empty(),
        asyncapi_spec_files: Seq::empty(),
        infer_string_topics: true,
    }
}

/// What the settings for contracts ask for: the default, where a part is missing.
pub open spec fn config_of(c: ContractsConfig) -> ExtractConfigView {
    let d = default_config();
    ExtractConfigView {
        proto_dirs: match c.grpc {
            Some(g) => rooted_view(g.proto_dirs@),
            None => d.proto_dirs,
        },
        controller_annotations: match c.grpc {
            Some(g) => if g.controller_annotations@.len() == 0 {
                d.controller_annotations
            } else {
                text::strings(g.controller_annotations@)
            },
            None => d.controller_annotations,
        },
        canonical_fqcn_projection: match c.grpc {
            Some(g) => g.canonical_fqcn_projection,
            None => d.canonical_fqcn_projection,
        },
        openapi_spec_files: match c.openapi {
            Some(o) => rooted_view(o.spec_files@),
            None => d.openapi_spec_files,
        },
        asyncapi_spec_files: match c.asyncapi {
            Some(a) => rooted_view(a.spec_files@),
            None => d.asyncapi_spec_files,
        },
        infer_string_topics: match c.asyncapi {
            Some(a) => a.infer_string_topics,
            None => d.infer_string_topics,
        },
    }
}

/// What is left of a directory below the workspace root, without the slashes around it and with
/// forward slashes in it.
pub open spec fn dir_needle(d: RootedView) -> Seq<char> {
    text::replaced(text::trim_set(d.from_root, "/"@), "\\"@, '/')
}

/// Whether a path leads through a directory.
pub open spec fn is_under(path: Seq<char>, dir: RootedView) -> bool {
    dir_needle(dir).len() > 0 && text::contains(text::replaced(path, "\\"@, '/'), dir_needle(dir))
}

/// What a path must hold to match a pattern: what is left of it below the workspace root, in
/// lower case, without the `./` and the `*` that it starts with.
pub open spec fn file_needle(pattern: RootedView) -> Seq<char> {
    text::unicode_lowercase(text::trim_front(text::strip_repeated(pattern.from_root, "./"@), "*"@))
}

/// Whether a path in lower case matches a pattern, at its end or anywhere in it.
pub open spec fn file_matches(path: Seq<char>, pattern: RootedView) -> bool {
    let needle = file_needle(pattern);
    needle.len() > 0 && (text::ends_with(path, needle) || text::contains(path, needle))
}

/// Whether a path matches one of the patterns.
pub open spec fn matches_some(path: Seq<char>, patterns: Seq<RootedView>) -> bool {
    exists|i: int| 0 <= i < patterns.len() && file_matches(path, #[trigger] patterns[i])
}

impl ExtractConfigView {
    /// Whether a `.proto` file at the path is extracted.
    pub open spec fn takes_proto(self, path: Seq<char>) -> bool {
        self.proto_dirs.len() == 0 || exists|i: int|
            0 <= i < self.proto_dirs.len() && is_under(path, #[trigger] self.proto_dirs[i])
    }

    /// Whether the file at the path is named as an OpenAPI spec.
    pub open spec fn names_openapi(self, path: Seq<char>) -> bool {
        matches_some(text::replaced(text::unicode_lowercase(path), "\\"@, '/'), self.openapi_spec_files)
    }
}

/// The path with `\` in place of each `/`.
pub open spec fn backslashed(path: Seq<char>) -> Seq<char> {
    text::replaced(path, "/"@, '\\')
}

/// Further patterns never make fewer files OpenAPI specs, and without patterns there are none.
pub proof fn law_more_patterns_name_more(narrow: ExtractConfigView, wide: ExtractConfigView, path: Seq<char>)
    requires
        forall|p: RootedView| #[trigger] narrow.openapi_spec_files.contains(p) ==> wide.openapi_spec_files.contains(p),
    ensures
        narrow.names_openapi(path) ==> wide.names_openapi(path),
        narrow.openapi_spec_files.len() == 0 ==> !narrow.names_openapi(path),
{
    if narrow.names_openapi(path) {
        let lower = text::replaced(text::unicode_lowercase(path), "\\"@, '/');
        let i = choose|i: int| 0 <= i < narrow.openapi_spec_files.len() && file_matches(lower, #[trigger] narrow.openapi_spec_files[i]);
        let p = narrow.openapi_spec_files[i];
        assert(narrow.openapi_spec_files.contains(p));
        let j = choose|j: int| 0 <= j < wide.openapi_spec_files.len() && wide.openapi_spec_files[j] == p;
        assert(file_matches(lower, wide.openapi_spec_files[j]));
    }
}

/// In the paths of `.proto` files `/` and `\` count alike.
pub proof fn law_proto_separators_count_alike(c: ExtractConfigView, path: Seq<char>)
    ensures
        c.takes_proto(backslashed(path)) == c.takes_proto(path),
{
    lemma_separators(path);
}

proof fn lemma_separators(path: Seq<char>)
    ensures
        text::replaced(backslashed(path), "\\"@, '/') == text::replaced(path, "\\"@, '/'),
{
    reveal_strlit("/");
    reveal_strlit("\\");
    assert("/"@[0] == '/' && "\\"@[0] == '\\');
    assert forall|c: char| "/"@.contains(c) == (c == '/') by {}
    assert forall|c: char| "\\"@.contains(c) == (c == '\\') by {}
    assert(text::replaced(backslashed(path), "\\"@, '/') =~= text::replaced(path, "\\"@, '/'));
}

impl Default for ExtractConfig {
    fn default() -> (r: ExtractConfig)
        ensures
            r@ == default_config(),
    {
        let mut annotations: Vec<String> = Vec::new();
        annotations.push(text::copy(DEFAULT_CONTROLLER_ANNOTATION));
        assert(text::strings(annotations@) == seq![DEFAULT_CONTROLLER_ANNOTATION@]);
        ExtractConfig {
            proto_dirs: Vec::new(),
            controller_annotations: annotations,
            canonical_fqcn_projection: true,
            openapi_spec_files: Vec::new(),
            asyncapi_spec_files: Vec::new(),
            infer_string_topics: true,
        }
    }
}

/// Whether a path in lower case matches one of the patterns.
pub fn matches_any(path: &[char], patterns: &Vec<RootedPath>) -> (r: bool)
    ensures
        r == matches_some(path@, rooted_view(patterns@)),
{
    let ghost pv = rooted_view(patterns@);
    let mut i: usize = 0;
    while i < patterns.len()
        invariant
            0 <= i <= patterns@.len(),
            pv == rooted_view(patterns@),
            forall|j: int| 0 <= j < i ==> !file_matches(path@, #[trigger] pv[j]),
        decreases patterns@.len() - i,
    {
        assert(pv[i as int] == patterns@[i as int]@);
        if spec_file_matches(path, &patterns[i]) {
            return true;
        }
        i += 1;
    }
    false
}

/// Whether a path in lower case matches a pattern, at its end or anywhere in it.
pub fn spec_file_matches(path: &[char], pattern: &RootedPath) -> (r: bool)
    ensures
        r == file_matches(path@, pattern@),
{
    let chars = text::chars_of(pattern.from_root.as_str());
    let bare = text::string_of(text::trimmed_front(text::stripped_repeated(chars.as_slice(), "./"), "*"));
    let needle = text::lowercase(bare.as_str());
    text::length(needle.as_str()) > 0 && (text::ends(path, needle.as_str()) || text::has_lit(path, needle.as_str()))
}

impl ExtractConfig {
    /// What the settings for contracts ask for.
    pub fn from_contracts(contracts: &ContractsConfig) -> (r: ExtractConfig)
        ensures
            r@ == config_of(*contracts),
    {
        let mut out = ExtractConfig::default();
        match &contracts.grpc {
            Some(g) => {
                out.proto_dirs = copy_rooted(&g.proto_dirs);
                if g.controller_annotations.len() > 0 {
                    out.controller_annotations = text::copied(&g.controller_annotations);
                }
                out.canonical_fqcn_projection = g.canonical_fqcn_projection;
            },
            None => {},
        }
        match &contracts.openapi {
            Some(o) => {
                out.openapi_spec_files = copy_rooted(&o.spec_files);
            },
            None => {},
        }
        match &contracts.asyncapi {
            Some(a) => {
                out.asyncapi_spec_files = copy_rooted(&a.spec_files);
                out.infer_string_topics = a.infer_string_topics;
            },
            None => {},
        }
        out
    }

    /// Whether a `.proto` file at the path is extracted: always, if no directories are named.
    pub fn allows_proto_path(&self, path_str: &str) -> (r: bool)
        ensures
            r == self@.takes_proto(path_str@),
    {
        if self.proto_dirs.len() == 0 {
            return true;
        }
        let ghost dv = rooted_view(self.proto_dirs@);
        let chars = text::chars_of(path_str);
        let path = text::replace_all(chars.as_slice(), "\\", '/');
        let mut i: usize = 0;
        assert(dv.len() > 0);
        while i < self.proto_dirs.len()
            invariant
                0 <= i <= self.proto_dirs@.len(),
                dv == rooted_view(self.proto_dirs@),
                path@ == text::replaced(path_str@, "\\"@, '/'),
                forall|j: int| 0 <= j < i ==> !is_under(path_str@, #[trigger] dv[j]),
            decreases self.proto_dirs@.len() - i,
        {
            assert(dv[i as int] == self.proto_dirs@[i as int]@);
            let dir = text::chars_of(self.proto_dirs[i].from_root.as_str());
            let needle = text::replace_all(text::trimmed_of(dir.as_slice(), "/"), "\\", '/');
            if needle.len() > 0 && text::has(path.as_slice(), needle.as_slice()) {
                return true;
            }
            i += 1;
        }
        false
    }

    /// Whether the file at the path is named as an OpenAPI spec. Upper and lower case of ASCII
    /// letters in the path count alike, and so do `/` and `\`.
    pub fn allows_openapi_spec(&self, path_str: &str) -> (r: bool)
        ensures
            r == self@.names_openapi(path_str@),
            r == self@.names_openapi(text::raised(path_str@)),
            r == self@.names_openapi(backslashed(path_str@)),
    {
        let lower = text::lowercase(path_str);
        proof {
            lemma_separators(lower@);
        }
        let chars = text::chars_of(lower.as_str());
        let path = text::replace_all(chars.as_slice(), "\\", '/');
        matches_any(path.as_slice(), &self.openapi_spec_files)
    }
}

/// Without settings every protobuf file is taken, names are projected, topics are taken from lists,
/// no files are named for descriptions, and `@GrpcMethod` is the annotation of controllers.
pub proof fn law_defaults(path: Seq<char>)
    ensures
        default_config().takes_proto(path),
        !default_config().names_openapi(path),
        default_config().canonical_fqcn_projection,
        default_config().infer_string_topics,
        default_config().openapi_spec_files.len() == 0,
        default_config().asyncapi_spec_files.len() == 0,
        default_config().controller_annotations == seq!["@GrpcMethod"@],
{
}

} // verus!
