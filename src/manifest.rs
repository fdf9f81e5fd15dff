//! The version field of build manifests, `Cargo.toml` and `pyproject.toml`,
//! read and written through `toml_edit` so that the rest of the file keeps
//! its layout.
use crate::custom::{first_version, line_pattern, regex_compiles};
use crate::version::{parse_version, version_text, Status, Version};
use vstd::prelude::*;

verus! {

#[verifier::external_type_specification]
#[verifier::external_body]
pub struct ExDocumentMut(toml_edit::DocumentMut);

/// The string values of a document, by key path through tables and inline
/// tables.
pub uninterp spec fn toml_strings(d: toml_edit::DocumentMut) -> Map<Seq<Seq<char>>, Seq<char>>;

/// The boolean values of a document, by key path.
pub uninterp spec fn toml_bools(d: toml_edit::DocumentMut) -> Map<Seq<Seq<char>>, bool>;

/// The key paths at which a document holds an item of any kind.
pub uninterp spec fn toml_items(d: toml_edit::DocumentMut) -> Set<Seq<Seq<char>>>;

/// The arrays of a document, by key path, each element as its string or
/// `None` where it is not a string.
pub uninterp spec fn toml_arrays(d: toml_edit::DocumentMut) -> Map<
    Seq<Seq<char>>,
    Seq<Option<Seq<char>>>,
>;

/// Whether `toml_edit` reads the text as a TOML document.
pub uninterp spec fn toml_parses(text: Seq<char>) -> bool;

pub open spec fn path_view(p: Seq<&str>) -> Seq<Seq<char>> {
    p.map_values(|k: &str| k@)
}

pub open spec fn opt_view(o: Option<String>) -> Option<Seq<char>> {
    match o {
        Some(s) => Some(s@),
        None => None,
    }
}

/// Relies on `toml_edit::DocumentMut`'s `FromStr`: the document, or `None`
/// where the text is not TOML.
#[verifier::external_body]
fn parse_toml(text: &str) -> (r: Option<toml_edit::DocumentMut>)
    ensures
        r is Some <==> toml_parses(text@),
{
    text.parse::<toml_edit::DocumentMut>().ok()
}

/// Reads a manifest's text as a TOML document.
pub fn parse_document(text: &str) -> (r: Option<toml_edit::DocumentMut>)
    ensures
        r is Some <==> toml_parses(text@),
{
    parse_toml(text)
}

/// Relies on `toml_edit::Item::get` and `Item::as_str`: the string at
/// `path`.
#[verifier::external_body]
fn get_str(d: &toml_edit::DocumentMut, path: &[&str]) -> (r: Option<String>)
    ensures
        r is Some <==> toml_strings(*d).contains_key(path_view(path@)),
        r matches Some(s) ==> toml_strings(*d)[path_view(path@)] == s@,
{
    let mut cur = Some(d.as_item());
    for k in path {
        cur = cur.and_then(|i| i.get(*k));
    }
    cur.and_then(|i| i.as_str()).map(|s| s.to_string())
}

/// Relies on `toml_edit::Item::get` and `Item::as_bool`: the boolean at
/// `path`.
#[verifier::external_body]
fn get_bool(d: &toml_edit::DocumentMut, path: &[&str]) -> (r: Option<bool>)
    ensures
        r is Some <==> toml_bools(*d).contains_key(path_view(path@)),
        r matches Some(b) ==> toml_bools(*d)[path_view(path@)] == b,
{
    let mut cur = Some(d.as_item());
    for k in path {
        cur = cur.and_then(|i| i.get(*k));
    }
    cur.and_then(|i| i.as_bool())
}

/// Relies on `toml_edit::Item::get`: whether an item stands at `path`.
#[verifier::external_body]
fn has_item(d: &toml_edit::DocumentMut, path: &[&str]) -> (r: bool)
    ensures
        r == toml_items(*d).contains(path_view(path@)),
{
    let mut cur = Some(d.as_item());
    for k in path {
        cur = cur.and_then(|i| i.get(*k));
    }
    cur.is_some()
}

/// Relies on `toml_edit::Item::get`, `Item::as_array` and `Value::as_str`:
/// the elements of the array at `path`.
#[verifier::external_body]
fn get_array(d: &toml_edit::DocumentMut, path: &[&str]) -> (r: Option<Vec<Option<String>>>)
    ensures
        r is Some <==> toml_arrays(*d).contains_key(path_view(path@)),
        r matches Some(a) ==> toml_arrays(*d)[path_view(path@)] == a@.map_values(
            |o: Option<String>| opt_view(o),
        ),
{
    let mut cur = Some(d.as_item());
    for k in path {
        cur = cur.and_then(|i| i.get(*k));
    }
    cur.and_then(|i| i.as_array()).map(|a| a.iter().map(|v| v.as_str().map(|s| s.to_string())).collect())
}

/// Relies on `toml_edit::Item::get`, `Item::get_mut` and `toml_edit::value`:
/// where `get` finds an item at `path`, `get_mut` reaches that same item
/// (every key on the way exists, so nothing is inserted) and it is replaced
/// by the string `value`; where it finds none, the document is left alone.
#[verifier::external_body]
fn set_str(d: &mut toml_edit::DocumentMut, path: &[&str], value: &str) -> (r: bool)
    ensures
        r == toml_items(*old(d)).contains(path_view(path@)),
        r ==> toml_strings(*final(d)).contains_key(path_view(path@)) && toml_strings(
            *final(d),
        )[path_view(path@)] == value@,
        !r ==> *final(d) == *old(d),
{
    if !path.iter().try_fold(d.as_item(), |i, k| i.get(*k)).is_some() {
        return false;
    }
    match path.iter().try_fold(d.as_item_mut(), |i, k| i.get_mut(*k)) {
        Some(i) => {
            *i = toml_edit::value(value);
            true
        },
        None => false,
    }
}

fn path1<'a>(a: &'a str) -> (r: Vec<&'a str>)
    ensures
        path_view(r@) == seq![a@],
{
    let mut r: Vec<&'a str> = Vec::new();
    r.push(a);
    assert(path_view(r@) =~= seq![a@]);
    r
}

fn path2<'a>(a: &'a str, b: &'a str) -> (r: Vec<&'a str>)
    ensures
        path_view(r@) == seq![a@, b@],
{
    let mut r: Vec<&'a str> = Vec::new();
    r.push(a);
    r.push(b);
    assert(path_view(r@) =~= seq![a@, b@]);
    r
}

fn path3<'a>(a: &'a str, b: &'a str, c: &'a str) -> (r: Vec<&'a str>)
    ensures
        path_view(r@) == seq![a@, b@, c@],
{
    let mut r: Vec<&'a str> = Vec::new();
    r.push(a);
    r.push(b);
    r.push(c);
    assert(path_view(r@) =~= seq![a@, b@, c@]);
    r
}

fn path4<'a>(a: &'a str, b: &'a str, c: &'a str, d: &'a str) -> (r: Vec<&'a str>)
    ensures
        path_view(r@) == seq![a@, b@, c@, d@],
{
    let mut r: Vec<&'a str> = Vec::new();
    r.push(a);
    r.push(b);
    r.push(c);
    r.push(d);
    assert(path_view(r@) =~= seq![a@, b@, c@, d@]);
    r
}

/// Why a manifest's version could not be read or written.
#[derive(Debug)]
pub enum Error {
    /// The text is not TOML.
    Parse(String),
    /// The version field does not read as a version.
    VersionError(String),
    /// The manifest lacks what is looked for.
    Other(String),
}

impl Error {
    pub fn to_string(&self) -> String {
        match self {
            Error::Parse(e) => e.clone(),
            Error::VersionError(e) => e.clone(),
            Error::Other(e) => e.clone(),
        }
    }
}

pub open spec fn package_version() -> Seq<Seq<char>> {
    seq!["package"@, "version"@]
}

pub open spec fn package_version_workspace() -> Seq<Seq<char>> {
    seq!["package"@, "version"@, "workspace"@]
}

pub open spec fn workspace_version() -> Seq<Seq<char>> {
    seq!["workspace"@, "package"@, "version"@]
}

/// The version text of a crate manifest: `package.version`, or, where that
/// says `{ workspace = true }`, `workspace.package.version`.
pub open spec fn cargo_version_text(d: toml_edit::DocumentMut) -> Option<Seq<char>> {
    if toml_strings(d).contains_key(package_version()) {
        Some(toml_strings(d)[package_version()])
    } else if toml_bools(d).contains_key(package_version_workspace()) && toml_bools(
        d,
    )[package_version_workspace()] && toml_strings(d).contains_key(workspace_version()) {
        Some(toml_strings(d)[workspace_version()])
    } else {
        None
    }
}

/// The version of a crate manifest.
pub fn find_version_in_document(doc: &toml_edit::DocumentMut) -> (r: Result<Version, Error>)
    ensures
        r is Ok <==> (cargo_version_text(*doc) matches Some(t) && parse_version(t) is Some),
        r matches Ok(v) ==> parse_version(cargo_version_text(*doc)->0) == Some(v),
        (r matches Err(Error::Other(_))) <==> cargo_version_text(*doc) is None,
        (r matches Err(Error::VersionError(_))) <==> (cargo_version_text(*doc) matches Some(t)
            && parse_version(t) is None),
{
    let text = match get_str(doc, path2("package", "version").as_slice()) {
        Some(t) => t,
        None => {
            let inherited = match get_bool(doc, path3("package", "version", "workspace").as_slice()) {
                Some(b) => b,
                None => false,
            };
            if !inherited {
                return Err(Error::Other("Unable to parse version in Cargo.toml".to_string()));
            }
            match get_str(doc, path3("workspace", "package", "version").as_slice()) {
                Some(t) => t,
                None => {
                    return Err(
                        Error::Other(
                            "Unable to find workspace.package version in Cargo.toml".to_string(),
                        ),
                    )
                },
            }
        },
    };
    match Version::parse(text.as_str()) {
        Ok(v) => Ok(v),
        Err(e) => Err(Error::VersionError(e.to_string())),
    }
}

/// The version of a crate manifest's text.
pub fn find_version_in_toml(cargo_toml_contents: &str) -> (r: Result<Version, Error>)
    ensures
        (r matches Err(Error::Parse(_))) <==> !toml_parses(cargo_toml_contents@),
{
    match parse_document(cargo_toml_contents) {
        Some(doc) => find_version_in_document(&doc),
        None => Err(Error::Parse("Unable to parse Cargo.toml".to_string())),
    }
}

/// Writes `new_version` into a crate manifest: into `package.version`,
/// unless that says `{ workspace = true }`; then, or where the package has
/// no version, into `workspace.package.version`.
pub fn update_version_in_toml(parsed_toml: &mut toml_edit::DocumentMut, new_version: &str) -> (r:
    Result<(), Error>)
    ensures
        ({
            let own = toml_items(*old(parsed_toml)).contains(package_version()) && !toml_items(
                *old(parsed_toml),
            ).contains(package_version_workspace());
            let inherited = toml_items(*old(parsed_toml)).contains(workspace_version());
            &&& r is Ok <==> (own || inherited)
            &&& own && r is Ok ==> toml_strings(*final(parsed_toml))[package_version()]
                == new_version@
            &&& own ==> toml_strings(*final(parsed_toml)).contains_key(package_version())
            &&& !own && r is Ok ==> toml_strings(*final(parsed_toml)).contains_key(
                workspace_version(),
            ) && toml_strings(*final(parsed_toml))[workspace_version()] == new_version@
            &&& r is Err ==> *final(parsed_toml) == *old(parsed_toml)
        }),
{
    if has_item(parsed_toml, path2("package", "version").as_slice()) {
        if !has_item(parsed_toml, path3("package", "version", "workspace").as_slice()) {
            set_str(parsed_toml, path2("package", "version").as_slice(), new_version);
            return Ok(());
        }
    } else if !has_item(parsed_toml, path3("workspace", "package", "version").as_slice()) {
        return Err(Error::Other("Unable to find package in Cargo.toml".to_string()));
    }
    if set_str(parsed_toml, path3("workspace", "package", "version").as_slice(), new_version) {
        Ok(())
    } else {
        Err(Error::Other("Unable to find workspace in Cargo.toml".to_string()))
    }
}

pub open spec fn project_version() -> Seq<Seq<char>> {
    seq!["project"@, "version"@]
}

/// The version of a Python project manifest, where it states one.
pub fn find_version_in_pyproject(doc: &toml_edit::DocumentMut) -> (r: Result<
    Option<Version>,
    Error,
>)
    ensures
        !toml_strings(*doc).contains_key(project_version()) ==> r matches Ok(None),
        toml_strings(*doc).contains_key(project_version()) ==> match parse_version(
            toml_strings(*doc)[project_version()],
        ) {
            Some(v) => r == Ok::<Option<Version>, Error>(Some(v)),
            None => r matches Err(Error::VersionError(_)),
        },
{
    match get_str(doc, path2("project", "version").as_slice()) {
        None => Ok(None),
        Some(t) => match Version::parse(t.as_str()) {
            Ok(v) => Ok(Some(v)),
            Err(e) => Err(Error::VersionError(e.to_string())),
        },
    }
}

/// Whether an array holds the string `version`.
pub open spec fn lists_version(a: Seq<Option<Seq<char>>>) -> bool {
    exists|i: int| 0 <= i < a.len() && a[i] == Some("version"@)
}

/// Writes `new_version` into `project.version` of a Python project
/// manifest. Returns `false` where the version is dynamic or not stated.
pub fn update_version_in_pyproject(doc: &mut toml_edit::DocumentMut, new_version: &Version) -> (r:
    bool)
    ensures
        ({
            let has_project = toml_items(*old(doc)).contains(seq!["project"@]);
            let dynamic = toml_arrays(*old(doc)).contains_key(seq!["project"@, "dynamic"@])
                && lists_version(toml_arrays(*old(doc))[seq!["project"@, "dynamic"@]]);
            let stated = toml_items(*old(doc)).contains(project_version());
            &&& !has_project ==> r && *final(doc) == *old(doc)
            &&& has_project && (dynamic || !stated) ==> !r && *final(doc) == *old(doc)
            &&& has_project && !dynamic && stated ==> r && toml_strings(*final(doc))[project_version()]
                == version_text(*new_version)
        }),
{
    if !has_item(doc, path1("project").as_slice()) {
        return true;
    }
    match get_array(doc, path2("project", "dynamic").as_slice()) {
        Some(a) => {
            let version_word = crate::text::string_of(
                &vec!['v', 'e', 'r', 's', 'i', 'o', 'n'],
            );
            proof {
                reveal_strlit("version");
                assert(version_word@ =~= "version"@);
            }
            let mut k: usize = 0;
            while k < a.len()
                invariant
                    *doc == *old(doc),
                    toml_items(*old(doc)).contains(seq!["project"@]),
                    toml_arrays(*old(doc)).contains_key(seq!["project"@, "dynamic"@]),
                    toml_arrays(*old(doc))[seq!["project"@, "dynamic"@]] == a@.map_values(
                        |o: Option<String>| opt_view(o),
                    ),
                    k <= a@.len(),
                    version_word@ == "version"@,
                    forall|j: int| 0 <= j < k ==> opt_view(#[trigger] a@[j]) != Some("version"@),
                decreases a@.len() - k,
            {
                if let Some(s) = &a[k] {
                    if crate::text::range_eq_str(s.as_str(), &crate::text::chars_of(version_word.as_str())) {
                        proof {
                            let arr = a@.map_values(|o: Option<String>| opt_view(o));
                            assert(arr[k as int] == Some("version"@));
                        }
                        return false;
                    }
                }
                k += 1;
            }
            proof {
                let arr = a@.map_values(|o: Option<String>| opt_view(o));
                assert forall|i: int| 0 <= i < arr.len() implies arr[i] != Some("version"@) by {
                    assert(arr[i] == opt_view(a@[i]));
                }
            }
        },
        None => {},
    }
    if !has_item(doc, path2("project", "version").as_slice()) {
        return false;
    }
    let text = new_version.to_string();
    set_str(doc, path2("project", "version").as_slice(), text.as_str());
    true
}

/// Whether a Python project takes its version from the repository through
/// hatch: `tool.hatch.version.source` is `vcs`.
pub fn pyproject_uses_hatch_vcs(doc: &toml_edit::DocumentMut) -> (r: bool)
    ensures
        r == (toml_strings(*doc).contains_key(seq!["tool"@, "hatch"@, "version"@, "source"@])
            && toml_strings(*doc)[seq!["tool"@, "hatch"@, "version"@, "source"@]] == seq![
            'v',
            'c',
            's',
        ]),
{
    match get_str(doc, path4("tool", "hatch", "version", "source").as_slice()) {
        Some(s) => crate::text::range_eq_str(s.as_str(), &vec!['v', 'c', 's']),
        None => false,
    }
}

/// The name of a Python project, where its manifest states one.
pub fn find_name_in_pyproject_toml(doc: &toml_edit::DocumentMut) -> (r: Option<String>)
    ensures
        opt_view(r) == if toml_strings(*doc).contains_key(seq!["project"@, "name"@]) {
            Some(toml_strings(*doc)[seq!["project"@, "name"@]])
        } else {
            None::<Seq<char>>
        },
{
    get_str(doc, path2("project", "name").as_slice())
}

/// A file with a configured version line: the line's template and the
/// file's lines.
pub struct VersionLineFile {
    pub new_line: String,
    pub lines: Vec<String>,
}

/// What a configured version line gives in its file.
pub open spec fn line_file_version(f: VersionLineFile) -> (Option<Version>, Option<Status>) {
    if regex_compiles(line_pattern(f.new_line@)) {
        first_version(line_pattern(f.new_line@), f.lines@.map_values(|l: String| l@))
    } else {
        (None, None)
    }
}

/// The version of the first configured version line that gives one.
pub open spec fn lines_version(fs: Seq<VersionLineFile>) -> Option<(Version, Option<Status>)>
    decreases fs.len(),
{
    if fs.len() == 0 {
        None
    } else if line_file_version(fs[0]).0 is Some {
        Some((line_file_version(fs[0]).0->0, line_file_version(fs[0]).1))
    } else {
        lines_version(fs.drop_first())
    }
}

pub open spec fn hatch_source() -> Seq<Seq<char>> {
    seq!["tool"@, "hatch"@, "version"@, "source"@]
}

/// The last released version as the project's files state it: the crate
/// manifest where there is one; else the Python manifest's version, or the
/// hatch version where hatch takes it from the repository; else the first
/// configured version line that gives one.
pub fn find_last_version_in_files(
    cargo_toml: Option<&toml_edit::DocumentMut>,
    pyproject_toml: Option<&toml_edit::DocumentMut>,
    hatch_version: Option<Version>,
    version_lines: &[VersionLineFile],
) -> (r: Result<Option<(Version, Option<Status>)>, Error>)
    ensures
        cargo_toml matches Some(d) ==> ({
            &&& r is Ok <==> (cargo_version_text(*d) matches Some(t) && parse_version(t) is Some)
            &&& r matches Ok(x) ==> x == Some((parse_version(cargo_version_text(*d)->0)->0, None::<Status>))
        }),
        cargo_toml is None ==> ({
            let stated = match pyproject_toml {
                Some(d) => toml_strings(*d).contains_key(project_version()),
                None => false,
            };
            let hatch = match pyproject_toml {
                Some(d) => toml_strings(*d).contains_key(hatch_source()) && toml_strings(*d)[hatch_source()] == seq!['v', 'c', 's'],
                None => false,
            };
            &&& stated ==> match parse_version(toml_strings(*pyproject_toml->0)[project_version()]) {
                Some(v) => r == Ok::<Option<(Version, Option<Status>)>, Error>(Some((v, None))),
                None => r is Err,
            }
            &&& !stated && hatch ==> match hatch_version {
                Some(v) => r == Ok::<Option<(Version, Option<Status>)>, Error>(Some((v, None))),
                None => r is Err,
            }
            &&& !stated && !hatch ==> r == Ok::<Option<(Version, Option<Status>)>, Error>(lines_version(version_lines@))
        }),
{
    if let Some(doc) = cargo_toml {
        return match find_version_in_document(doc) {
            Ok(v) => Ok(Some((v, None))),
            Err(e) => Err(e),
        };
    }
    if let Some(doc) = pyproject_toml {
        if let Some(v) = find_version_in_pyproject(doc)? {
            return Ok(Some((v, None)));
        }
        if pyproject_uses_hatch_vcs(doc) {
            return match hatch_version {
                Some(v) => Ok(Some((v, None))),
                None => Err(
                    Error::Other("hatch in use but unable to find hatch vcs version".to_string()),
                ),
            };
        }
    }
    let ghost fs = version_lines@;
    let mut k: usize = 0;
    assert(fs.subrange(0, fs.len() as int) =~= fs);
    while k < version_lines.len()
        invariant
            fs == version_lines@,
            cargo_toml is None,
            pyproject_toml matches Some(d) ==> !toml_strings(*d).contains_key(project_version())
                && !(toml_strings(*d).contains_key(hatch_source()) && toml_strings(*d)[hatch_source()]
                == seq!['v', 'c', 's']),
            k <= fs.len(),
            lines_version(fs) == lines_version(fs.subrange(k as int, fs.len() as int)),
        decreases fs.len() - k,
    {
        let ghost rest = fs.subrange(k as int, fs.len() as int);
        assert(rest.drop_first() =~= fs.subrange(k + 1, fs.len() as int));
        let f = &version_lines[k];
        let mut refs: Vec<&str> = Vec::new();
        let mut j: usize = 0;
        while j < f.lines.len()
            invariant
                j <= f.lines@.len(),
                refs@.len() == j,
                forall|i: int| 0 <= i < j ==> (#[trigger] refs@[i])@ == f.lines@[i]@,
            decreases f.lines@.len() - j,
        {
            refs.push(f.lines[j].as_str());
            j += 1;
        }
        assert(refs@.map_values(|l: &str| l@) =~= f.lines@.map_values(|l: String| l@));
        let (v, s) = crate::custom::reverse_version(f.new_line.as_str(), refs.as_slice());
        assert((v, s) == line_file_version(rest[0]));
        if let Some(v) = v {
            return Ok(Some((v, s)));
        }
        k += 1;
    }
    Ok(None)
}

} // verus!
