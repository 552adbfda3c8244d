use vstd::prelude::*;

use crate::errors::BuildError;

verus! {

#[verifier::external_type_specification]
#[verifier::external_body]
#[verifier::reject_recursive_types(Fs)]
pub struct ExResolverGeneric<Fs>(oxc_resolver::ResolverGeneric<Fs>);

#[verifier::external_type_specification]
#[verifier::external_body]
pub struct ExFileSystemOs(oxc_resolver::FileSystemOs);

/// Index of the last path separator of `s`, or -1 where none stands.
pub open spec fn last_slash(s: Seq<char>) -> int
    decreases s.len(),
{
    if s.len() == 0 {
        -1
    } else if s.last() == '/' {
        s.len() - 1
    } else {
        last_slash(s.drop_last())
    }
}

/// The directory a file path lies in: the text before its last separator, the
/// root where that separator leads, or nothing for a bare file name.
pub open spec fn parent_of(s: Seq<char>) -> Seq<char> {
    if last_slash(s) < 0 {
        Seq::empty()
    } else if last_slash(s) == 0 {
        seq!['/']
    } else {
        s.take(last_slash(s))
    }
}

/// `specifier` anchored at the directory `cwd`: an absolute specifier stands
/// alone, any other is appended behind one separator.
pub open spec fn join_of(cwd: Seq<char>, specifier: Seq<char>) -> Seq<char> {
    if specifier.len() > 0 && specifier[0] == '/' {
        specifier
    } else if cwd.last() == '/' {
        cwd + specifier
    } else {
        cwd + seq!['/'] + specifier
    }
}

/// The directory a file path lies in.
fn parent_dir(path: &str) -> (r: String)
    requires
        path@.len() > 0,
        path@.last() != '/',
    ensures
        r@ == parent_of(path@),
{
    let len = path.unicode_len();
    let mut j: usize = len;
    proof {
        assert(path@.take(len as int) =~= path@);
    }
    while j > 0
        invariant
            j <= len,
            len == path@.len(),
            last_slash(path@) == last_slash(path@.take(j as int)),
        decreases j,
    {
        let c = path.get_char(j - 1);
        proof {
            assert(path@.take(j as int).last() == path@[j - 1]);
            assert(path@.take(j as int).drop_last() =~= path@.take(j - 1));
        }
        if c == '/' {
            proof {
                assert(last_slash(path@) == j - 1);
            }
            if j - 1 == 0 {
                let r = "/".to_owned();
                proof {
                    reveal_strlit("/");
                    assert(r@ =~= seq!['/']);
                }
                return r;
            }
            let r = path.substring_char(0, j - 1).to_owned();
            proof {
                assert(path@.subrange(0, j - 1) =~= path@.take(j - 1));
            }
            return r;
        }
        j = j - 1;
    }
    proof {
        assert(path@.take(0) =~= Seq::<char>::empty());
        assert(last_slash(path@) == -1);
    }
    String::new()
}

/// `specifier` anchored at the directory `cwd`.
fn join_path(cwd: &String, specifier: &str) -> (r: String)
    requires
        cwd@.len() > 0,
    ensures
        r@ == join_of(cwd@, specifier@),
{
    proof {
        reveal_strlit("/");
    }
    if specifier.unicode_len() > 0 {
        let c0 = specifier.get_char(0);
        if c0 == '/' {
            return specifier.to_owned();
        }
    }
    let mut r = cwd.clone();
    let clen = cwd.as_str().unicode_len();
    let last = cwd.as_str().get_char(clen - 1);
    if last != '/' {
        r.append("/");
        proof {
            assert(r@ =~= cwd@ + seq!['/']);
        }
    }
    r.append(specifier);
    r
}

/// The directory resolution anchors at: the importer's parent directory where
/// an importer is known, else the process working directory.
pub fn resolve_context(importer: Option<&String>, cwd: &String) -> (r: String)
    requires
        importer matches Some(p) ==> p@.len() > 0 && p@.last() != '/',
    ensures
        match importer {
            Some(p) => r@ == parent_of(p@),
            None => r@ == cwd@,
        },
{
    match importer {
        Some(p) => parent_dir(p.as_str()),
        None => cwd.clone(),
    }
}

/// The specifier as it is handed to the file-system lookup: an entry specifier
/// (no importer) is anchored at the working directory, since no importer
/// directory exists to anchor against; an import specifier stands as given.
pub fn probed_specifier(importer: Option<&String>, cwd: &String, specifier: &str) -> (r: String)
    requires
        importer is None ==> cwd@.len() > 0,
    ensures
        match importer {
            Some(_) => r@ == specifier@,
            None => r@ == join_of(cwd@, specifier@),
        },
{
    match importer {
        Some(_) => specifier.to_owned(),
        None => join_path(cwd, specifier),
    }
}

/// A successful resolution: the resolved absolute path.
pub struct ResolveRet {
    pub resolved: String,
}

/// Turns one file-system outcome into the resolution result: the resolved path
/// where the lookup succeeded; otherwise the typed failure — an unresolved
/// import naming the raw specifier and the importer, or an unresolved entry
/// naming the probed path.
pub fn resolve_outcome(
    importer: Option<&String>,
    probed: String,
    raw_specifier: &str,
    outcome: Option<String>,
) -> (r: Result<ResolveRet, BuildError>)
    ensures
        match outcome {
            Some(p) => (r matches Ok(rr) && rr.resolved@ == p@),
            None => match importer {
                Some(imp) => (r matches Err(e) && e matches BuildError::UnresolvedImport {
                    specifier,
                    importer: by,
                } && specifier@ == raw_specifier@ && by@ == imp@),
                None => (r matches Err(e) && e matches BuildError::UnresolvedEntry { specifier }
                    && specifier@ == probed@),
            },
        },
{
    match outcome {
        Some(p) => Ok(ResolveRet { resolved: p }),
        None => match importer {
            Some(imp) => Err(
                BuildError::UnresolvedImport {
                    specifier: raw_specifier.to_owned(),
                    importer: imp.clone(),
                },
            ),
            None => Err(BuildError::UnresolvedEntry { specifier: probed }),
        },
    }
}

/// Relies on oxc_resolver::ResolverGeneric::new: builds a resolver that looks
/// specifiers up with the given extension list, symlink handling and relative
/// preference. Nothing is assumed of the value.
#[verifier::external_body]
fn oxc_resolver_new(extensions: Vec<String>, symlinks: bool, prefer_relative: bool) -> (r:
    oxc_resolver::Resolver)
{
    oxc_resolver::Resolver::new(
        oxc_resolver::ResolveOptions {
            symlinks,
            extensions,
            prefer_relative,
            ..oxc_resolver::ResolveOptions::default()
        },
    )
}

/// Relies on oxc_resolver::ResolverGeneric::resolve: looks `specifier` up on
/// disk against the directory `context`. The outcome depends on the file
/// system, so nothing is assumed of it; the caller states what holds of every
/// outcome.
#[verifier::external_body]
fn oxc_resolve(inner: &oxc_resolver::Resolver, context: &str, specifier: &str) -> (r: Option<
    String,
>) {
    match inner.resolve(std::path::Path::new(context), specifier) {
        Ok(info) => Some(info.path().to_string_lossy().to_string()),
        Err(_) => None,
    }
}

/// The specifier-to-path resolver: a working directory and the file-system
/// lookup configured over it.
pub struct Resolver {
    cwd: String,
    inner: oxc_resolver::Resolver,
}

impl Resolver {
    /// The working directory entries are resolved against.
    pub closed spec fn cwd_model(&self) -> Seq<char> {
        self.cwd@
    }

    /// A working directory is a nonempty (absolute) path.
    pub closed spec fn wf(&self) -> bool {
        self.cwd@.len() > 0
    }

    /// A resolver anchored at `cwd`, resolving the JavaScript and TypeScript
    /// extension list, dereferencing symlinks unless they are preserved, and
    /// not preferring relative resolution.
    pub fn with_cwd(cwd: String, preserve_symlinks: bool) -> (r: Self)
        requires
            cwd@.len() > 0,
        ensures
            r.wf(),
            r.cwd_model() == cwd@,
    {
        let mut extensions: Vec<String> = Vec::new();
        extensions.push(".js".to_owned());
        extensions.push(".jsx".to_owned());
        extensions.push(".ts".to_owned());
        extensions.push(".tsx".to_owned());
        let inner = oxc_resolver_new(extensions, !preserve_symlinks, false);
        Resolver { cwd, inner }
    }

    /// The working directory.
    pub fn cwd(&self) -> (r: &String)
        ensures
            r@ == self.cwd_model(),
    {
        &self.cwd
    }

    /// Resolves `specifier`: against the importer's directory where one is
    /// known, else against the working directory (the entry case, where the
    /// probed path is the working directory joined with the specifier). What
    /// the lookup finds depends on the file system; every failure is the typed
    /// error naming the offending specifier and, for imports, the importer.
    pub fn resolve(&self, importer: Option<&String>, specifier: &str) -> (r: Result<
        ResolveRet,
        BuildError,
    >)
        requires
            self.wf(),
            importer matches Some(p) ==> p@.len() > 0 && p@.last() != '/',
        ensures
            r is Err ==> match importer {
                Some(imp) => (r->Err_0 matches BuildError::UnresolvedImport {
                    specifier: s2,
                    importer: by,
                } && s2@ == specifier@ && by@ == imp@),
                None => (r->Err_0 matches BuildError::UnresolvedEntry { specifier: s2 } && s2@
                    == join_of(self.cwd_model(), specifier@)),
            },
    {
        let probed = probed_specifier(importer, &self.cwd, specifier);
        let context = resolve_context(importer, &self.cwd);
        let outcome = oxc_resolve(&self.inner, context.as_str(), probed.as_str());
        resolve_outcome(importer, probed, specifier, outcome)
    }
}

} // verus!
