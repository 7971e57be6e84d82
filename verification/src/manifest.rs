//! The manifest loader: splits one file's content into document blocks at
//! sentinel separator lines, decodes each block, and yields typed resource
//! documents. A document without type identity fails the whole file.

use vstd::prelude::*;

verus! {

/// A resource's type identity: the group, version and kind naming its schema
/// and endpoint family.
pub struct Gvk {
    pub group: String,
    pub version: String,
    pub kind: String,
}

/// Ghost image of a type identity.
pub struct GvkView {
    pub group: Seq<char>,
    pub version: Seq<char>,
    pub kind: Seq<char>,
}

impl View for Gvk {
    type V = GvkView;

    open spec fn view(&self) -> GvkView {
        GvkView { group: self.group@, version: self.version@, kind: self.kind@ }
    }
}

impl DeepView for Gvk {
    type V = GvkView;

    open spec fn deep_view(&self) -> GvkView {
        self.view()
    }
}

/// One decoded unit of a source file: its type identity, name, optional
/// namespace, and the block text it came from (the body stays opaque here).
pub struct ManifestDocument {
    pub gvk: Gvk,
    pub name: String,
    pub namespace: Option<String>,
    pub source: String,
}

/// Ghost image of a manifest document.
pub struct DocView {
    pub gvk: GvkView,
    pub name: Seq<char>,
    pub namespace: Option<Seq<char>>,
    pub source: Seq<char>,
}

impl View for ManifestDocument {
    type V = DocView;

    open spec fn view(&self) -> DocView {
        DocView {
            gvk: self.gvk@,
            name: self.name@,
            namespace: match self.namespace {
                Some(ref n) => Some(n@),
                None => None,
            },
            source: self.source@,
        }
    }
}

impl DeepView for ManifestDocument {
    type V = DocView;

    open spec fn deep_view(&self) -> DocView {
        self.view()
    }
}

/// Why a file failed to load: a block the decoder rejects, or a document
/// with no type identity. Either failure is fatal to the whole file.
#[derive(PartialEq, Eq, Structural, Clone, Copy, Debug)]
pub enum LoadError {
    Unparseable { doc_index: usize },
    MissingTypeMeta { doc_index: usize },
}

impl LoadError {
    /// A short description for logs.
    pub fn describe(&self) -> &'static str {
        match self {
            LoadError::Unparseable { .. } => "document block cannot be parsed",
            LoadError::MissingTypeMeta { .. } => "document has no type identity",
        }
    }
}

/// A whitespace character, for deciding whether a block is blank.
pub open spec fn is_space(c: char) -> bool {
    c == ' ' || c == '\t' || c == '\r' || c == '\n'
}

/// A block with no visible content: it holds no document.
pub open spec fn is_blank(s: Seq<char>) -> bool {
    forall|i: int| 0 <= i < s.len() ==> is_space(#[trigger] s[i])
}

/// A document separator stands at `i`: a line consisting of three dashes.
pub open spec fn sep_at(s: Seq<char>, i: int) -> bool {
    &&& 0 <= i
    &&& i + 3 <= s.len()
    &&& (i == 0 || s[i - 1] == '\n')
    &&& s[i] == '-'
    &&& s[i + 1] == '-'
    &&& s[i + 2] == '-'
    &&& (i + 3 == s.len() || s[i + 3] == '\n')
}

/// The first separator position at or after `i`, or -1 when there is none.
pub open spec fn find_sep_from(s: Seq<char>, i: int) -> int
    decreases s.len() - i,
{
    if i < 0 || i + 3 > s.len() {
        -1
    } else if sep_at(s, i) {
        i
    } else {
        find_sep_from(s, i + 1)
    }
}

/// The non-blank document blocks of a file's content: what stands between
/// separator lines, with the line breaks around each separator removed.
pub open spec fn document_blocks(s: Seq<char>) -> Seq<Seq<char>>
    decreases s.len(),
{
    let i = find_sep_from(s, 0);
    if i < 0 {
        if is_blank(s) {
            Seq::empty()
        } else {
            seq![s]
        }
    } else {
        let head = if i == 0 {
            Seq::<char>::empty()
        } else {
            s.take(i - 1)
        };
        let tail_blocks = if i + 4 <= s.len() {
            document_blocks(s.skip(i + 4))
        } else {
            Seq::<Seq<char>>::empty()
        };
        (if is_blank(head) {
            Seq::<Seq<char>>::empty()
        } else {
            seq![head]
        }) + tail_blocks
    }
}

/// The first `/` in `s` at or after `i`, or -1 when there is none.
pub open spec fn find_slash_from(s: Seq<char>, i: int) -> int
    decreases s.len() - i,
{
    if i < 0 || i >= s.len() {
        -1
    } else if s[i] == '/' {
        i
    } else {
        find_slash_from(s, i + 1)
    }
}

/// Group and version read from an `apiVersion` value: the part before the
/// first `/` is the group and the rest the version; with no `/` the group is
/// empty (the core group) and the whole value is the version.
pub open spec fn group_version_of(api_version: Seq<char>) -> (Seq<char>, Seq<char>) {
    let i = find_slash_from(api_version, 0);
    if i == -1 {
        (Seq::empty(), api_version)
    } else {
        (api_version.take(i), api_version.skip(i + 1))
    }
}

/// The name a document is applied under: its name, else its generate-name,
/// else empty.
pub open spec fn name_any(name: Option<Seq<char>>, generate_name: Option<Seq<char>>) -> Seq<
    char,
> {
    match name {
        Some(n) => n,
        None => match generate_name {
            Some(g) => g,
            None => Seq::empty(),
        },
    }
}

/// The envelope fields the decoder reads from one document block: `None` when
/// the block cannot be decoded, else the optional (apiVersion, kind) pair,
/// name, generate-name and namespace. The decoder's verdict is a function of
/// the block's text alone.
pub uninterp spec fn yaml_doc_fields(block: Seq<char>) -> Option<
    (Option<(Seq<char>, Seq<char>)>, Option<Seq<char>>, Option<Seq<char>>, Option<Seq<char>>),
>;

/// The block decodes at all.
pub open spec fn block_decodes(b: Seq<char>) -> bool {
    yaml_doc_fields(b) is Some
}

/// The block decodes and carries type identity.
pub open spec fn block_has_identity(b: Seq<char>) -> bool {
    &&& block_decodes(b)
    &&& (yaml_doc_fields(b)->Some_0).0 is Some
}

/// The document a decodable block with identity stands for.
pub open spec fn doc_of_block(b: Seq<char>) -> DocView
    recommends
        block_has_identity(b),
{
    let f = yaml_doc_fields(b)->Some_0;
    let tm = f.0->Some_0;
    let gv = group_version_of(tm.0);
    DocView {
        gvk: GvkView { group: gv.0, version: gv.1, kind: tm.1 },
        name: name_any(f.1, f.2),
        namespace: f.3,
        source: b,
    }
}

/// What the decoder hands back for one block, before any identity check.
struct RawDoc {
    type_meta: Option<(String, String)>,
    name: Option<String>,
    generate_name: Option<String>,
    namespace: Option<String>,
}

/// Ghost image of a raw decoded block.
spec fn raw_doc_view(d: RawDoc) -> (
    Option<(Seq<char>, Seq<char>)>,
    Option<Seq<char>>,
    Option<Seq<char>>,
    Option<Seq<char>>,
) {
    (
        match d.type_meta {
            Some((ref a, ref k)) => Some((a@, k@)),
            None => None,
        },
        match d.name {
            Some(ref n) => Some(n@),
            None => None,
        },
        match d.generate_name {
            Some(ref g) => Some(g@),
            None => None,
        },
        match d.namespace {
            Some(ref n) => Some(n@),
            None => None,
        },
    )
}

#[verifier::external_type_specification]
#[verifier::external_body]
pub struct ExSerdeYamlError(serde_yaml::Error);

/// Relies on `serde_yaml::from_str` decoding one block into kube's
/// `DynamicObject` (optional flattened `TypeMeta`, object metadata, opaque
/// data): the envelope fields it yields, and whether it fails, depend on the
/// block's text alone.
#[verifier::external_body]
fn decode_block(block: &str) -> (r: Result<RawDoc, serde_yaml::Error>)
    ensures
        match r {
            Ok(d) => yaml_doc_fields(block@) == Some(raw_doc_view(d)),
            Err(_) => yaml_doc_fields(block@) is None,
        },
{
    let obj: kube::core::DynamicObject = serde_yaml::from_str(block)?;
    Ok(RawDoc {
        type_meta: obj.types.map(|t| (t.api_version, t.kind)),
        name: obj.metadata.name,
        generate_name: obj.metadata.generate_name,
        namespace: obj.metadata.namespace,
    })
}

/// Finds the first separator line of `s`, as `find_sep_from` from zero.
fn find_sep(s: &str) -> (r: Option<usize>)
    ensures
        match r {
            Some(k) => find_sep_from(s@, 0) == k as int && sep_at(s@, k as int),
            None => find_sep_from(s@, 0) == -1,
        },
{
    let len = s.unicode_len();
    if len < 3 {
        return None;
    }
    let mut i: usize = 0;
    while i <= len - 3
        invariant
            len == s@.len(),
            3 <= len,
            find_sep_from(s@, 0) == find_sep_from(s@, i as int),
        decreases len - i,
    {
        let dash3 = s.get_char(i) == '-' && s.get_char(i + 1) == '-' && s.get_char(i + 2) == '-';
        let at_line = i == 0 || s.get_char(i - 1) == '\n';
        let line_end = i + 3 == len || s.get_char(i + 3) == '\n';
        if dash3 && at_line && line_end {
            assert(sep_at(s@, i as int));
            return Some(i);
        }
        assert(!sep_at(s@, i as int));
        i = i + 1;
    }
    None
}

/// Decides whether a block is blank.
fn is_blank_exec(s: &str) -> (r: bool)
    ensures
        r == is_blank(s@),
{
    let len = s.unicode_len();
    let mut i: usize = 0;
    while i < len
        invariant
            i <= len,
            len == s@.len(),
            forall|j: int| 0 <= j < i ==> is_space(#[trigger] s@[j]),
        decreases len - i,
    {
        let c = s.get_char(i);
        if !(c == ' ' || c == '\t' || c == '\r' || c == '\n') {
            assert(!is_space(s@[i as int]));
            return false;
        }
        i = i + 1;
    }
    true
}

/// Splits a file's content into its non-blank document blocks.
pub fn split_documents(content: &str) -> (r: Vec<String>)
    ensures
        r.deep_view() == document_blocks(content@),
{
    let mut out: Vec<String> = Vec::new();
    let mut rest: &str = content;
    proof {
        assert(out.deep_view() =~= Seq::<Seq<char>>::empty());
        assert(document_blocks(content@) =~= out.deep_view() + document_blocks(rest@));
    }
    loop
        invariant
            document_blocks(content@) == out.deep_view() + document_blocks(rest@),
        decreases rest@.len(),
    {
        let ghost dvo = out.deep_view();
        match find_sep(rest) {
            None => {
                if !is_blank_exec(rest) {
                    let last = String::from_str(rest);
                    out.push(last);
                    proof {
                        assert(out.deep_view() =~= dvo.push(rest@));
                        assert(document_blocks(rest@) =~= seq![rest@]);
                        assert(dvo.push(rest@) =~= dvo + seq![rest@]);
                    }
                } else {
                    proof {
                        assert(document_blocks(rest@) =~= Seq::<Seq<char>>::empty());
                        assert(dvo + Seq::<Seq<char>>::empty() =~= dvo);
                    }
                }
                return out;
            },
            Some(i) => {
                let ghost old_rest = rest@;
                let rl = rest.unicode_len();
                let head: &str = if i == 0 {
                    rest.substring_char(0, 0)
                } else {
                    rest.substring_char(0, i - 1)
                };
                proof {
                    if i == 0 {
                        assert(head@ =~= Seq::<char>::empty());
                    } else {
                        assert(head@ =~= old_rest.take(i - 1));
                    }
                }
                let ghost spec_head: Seq<char> = if i == 0 {
                    Seq::<char>::empty()
                } else {
                    old_rest.take(i as int - 1)
                };
                if !is_blank_exec(head) {
                    let piece = String::from_str(head);
                    out.push(piece);
                    proof {
                        assert(out.deep_view() =~= dvo.push(spec_head));
                        assert(dvo.push(spec_head) =~= dvo + seq![spec_head]);
                    }
                }
                rest = if rl - i >= 4 {
                    rest.substring_char(i + 4, rl)
                } else {
                    rest.substring_char(rl, rl)
                };
                proof {
                    if i + 4 <= rl {
                        assert(rest@ =~= old_rest.skip(i + 4));
                    } else {
                        assert(rest@ =~= Seq::<char>::empty());
                        assert(find_sep_from(rest@, 0) == -1);
                        assert(is_blank(rest@));
                        assert(document_blocks(rest@) =~= Seq::<Seq<char>>::empty());
                    }
                    assert(document_blocks(old_rest) == (if is_blank(spec_head) {
                        Seq::<Seq<char>>::empty()
                    } else {
                        seq![spec_head]
                    }) + document_blocks(rest@));
                    if is_blank(spec_head) {
                        assert(document_blocks(old_rest) =~= document_blocks(rest@));
                        assert(out.deep_view() == dvo);
                    } else {
                        assert((dvo + seq![spec_head]) + document_blocks(rest@) =~= dvo + (
                        seq![spec_head] + document_blocks(rest@)));
                    }
                }
            },
        }
    }
}

/// Splits an `apiVersion` value into the library's type identity.
fn gvk_of(api_version: String, kind: String) -> (g: Gvk)
    ensures
        g@.group == group_version_of(api_version@).0,
        g@.version == group_version_of(api_version@).1,
        g@.kind == kind@,
{
    let len = api_version.as_str().unicode_len();
    match find_slash(api_version.as_str()) {
        None => Gvk { group: String::new(), version: api_version, kind },
        Some(k) => {
            let group = api_version.as_str().substring_char(0, k);
            let version = api_version.as_str().substring_char(k + 1, len);
            proof {
                assert(group@ =~= api_version@.take(k as int));
                assert(version@ =~= api_version@.skip(k as int + 1));
            }
            Gvk { group: String::from_str(group), version: String::from_str(version), kind }
        },
    }
}

/// Finds the first `/` of `s`, as `find_slash_from` from zero.
fn find_slash(s: &str) -> (r: Option<usize>)
    ensures
        match r {
            Some(k) => find_slash_from(s@, 0) == k as int && k < s@.len() && s@[k as int] == '/',
            None => find_slash_from(s@, 0) == -1,
        },
{
    let len = s.unicode_len();
    let mut i: usize = 0;
    while i < len
        invariant
            i <= len,
            len == s@.len(),
            find_slash_from(s@, 0) == find_slash_from(s@, i as int),
        decreases len - i,
    {
        if s.get_char(i) == '/' {
            assert(find_slash_from(s@, i as int) == i);
            return Some(i);
        }
        i = i + 1;
    }
    None
}

/// A successful load: every block decodes and carries identity, and `docs`
/// holds one document per block, in order.
pub open spec fn load_ok_spec(blocks: Seq<Seq<char>>, docs: Seq<DocView>) -> bool {
    &&& forall|k: int| 0 <= k < blocks.len() ==> block_has_identity(#[trigger] blocks[k])
    &&& docs.len() == blocks.len()
    &&& forall|k: int| 0 <= k < blocks.len() ==> (#[trigger] docs[k]) == doc_of_block(blocks[k])
}

/// A failed load: `e` names the first offending block — every block before it
/// is in order, and the error kind says how that block offends.
pub open spec fn load_error_spec(blocks: Seq<Seq<char>>, e: LoadError) -> bool {
    exists|k: int|
        #![trigger blocks[k]]
        {
            &&& 0 <= k < blocks.len()
            &&& forall|j: int| 0 <= j < k ==> block_has_identity(#[trigger] blocks[j])
            &&& match e {
                LoadError::Unparseable { doc_index } => doc_index == k && !block_decodes(
                    blocks[k],
                ),
                LoadError::MissingTypeMeta { doc_index } => doc_index == k && block_decodes(
                    blocks[k],
                ) && !block_has_identity(blocks[k]),
            }
        }
}

/// Loads one file's content: every non-blank block must decode and carry type
/// identity, and then one document per block is returned, in order. The first
/// offending block otherwise fails the whole file, and nothing is returned.
pub fn load_manifests(content: &str) -> (r: Result<Vec<ManifestDocument>, LoadError>)
    ensures
        match r {
            Ok(docs) => load_ok_spec(document_blocks(content@), docs.deep_view()),
            Err(e) => load_error_spec(document_blocks(content@), e),
        },
{
    let blocks = split_documents(content);
    let ghost bv = document_blocks(content@);
    let mut docs: Vec<ManifestDocument> = Vec::new();
    let n = blocks.len();
    let mut k: usize = 0;
    while k < n
        invariant
            k <= n,
            n == blocks.len(),
            blocks.deep_view() == bv,
            bv == document_blocks(content@),
            bv.len() == n,
            docs.len() == k,
            forall|j: int| 0 <= j < k ==> block_has_identity(#[trigger] bv[j]),
            forall|j: int| 0 <= j < k ==> (#[trigger] docs.deep_view()[j]) == doc_of_block(bv[j]),
        decreases n - k,
    {
        proof {
            assert(blocks[k as int]@ == bv[k as int]);
        }
        match decode_block(blocks[k].as_str()) {
            Err(_) => {
                proof {
                    assert(!block_decodes(bv[k as int]));
                }
                return Err(LoadError::Unparseable { doc_index: k });
            },
            Ok(raw) => {
                let ghost rv = raw_doc_view(raw);
                proof {
                    assert(yaml_doc_fields(bv[k as int]) == Some(rv));
                }
                match raw.type_meta {
                    None => {
                        proof {
                            assert(rv.0 is None);
                            assert(block_decodes(bv[k as int]));
                            assert(!block_has_identity(bv[k as int]));
                        }
                        return Err(LoadError::MissingTypeMeta { doc_index: k });
                    },
                    Some((api_version, kind)) => {
                        proof {
                            assert(rv.0 == Some((api_version@, kind@)));
                            assert(block_has_identity(bv[k as int]));
                        }
                        let ghost gdoc = doc_of_block(bv[k as int]);
                        let gvk = gvk_of(api_version, kind);
                        let name = match raw.name {
                            Some(n) => n,
                            None => match raw.generate_name {
                                Some(g) => g,
                                None => String::new(),
                            },
                        };
                        let source = blocks[k].clone();
                        let doc = ManifestDocument { gvk, name, namespace: raw.namespace, source };
                        proof {
                            assert(doc@.gvk == gdoc.gvk);
                            assert(doc@.name == gdoc.name);
                            assert(doc@.namespace == gdoc.namespace);
                            assert(doc@.source == gdoc.source);
                            assert(doc@ == gdoc);
                        }
                        let ghost dv_before = docs.deep_view();
                        docs.push(doc);
                        proof {
                            assert(docs.deep_view() =~= dv_before.push(doc@));
                            assert(docs.deep_view()[k as int] == gdoc);
                        }
                    },
                }
            },
        }
        k = k + 1;
    }
    Ok(docs)
}

} // verus!
