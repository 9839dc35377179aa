//! Configuration resolver: turns the raw declarative inputs (resolution
//! mode, name list, file list, compression level, algorithm) into a
//! validated, fully-expanded build configuration, or a fatal configuration
//! error naming what was wrong.

use crate::codec::Algorithm;
use crate::text::{basename, basename_of, list_of, split_list};
use vstd::prelude::*;

verus! {

/// Whether the declared name/file lists are literal `';'`-delimited strings
/// or names of environment variables holding such strings.
#[derive(Clone, Copy, Debug, PartialEq, Eq, Structural)]
pub enum ResolutionMode {
    Literal,
    EnvironmentIndirected,
}

/// Case-insensitive equality of two characters, folding only the ASCII
/// letters.
pub open spec fn chars_eq_ci(a: char, b: char) -> bool {
    ||| a == b
    ||| (65 <= a as int <= 90 && b as int == a as int + 32)
    ||| (65 <= b as int <= 90 && a as int == b as int + 32)
}

/// ASCII-case-insensitive equality of two character sequences.
pub open spec fn eq_ignore_ascii_case(a: Seq<char>, b: Seq<char>) -> bool {
    a.len() == b.len() && (forall|i: int| 0 <= i < a.len() ==> #[trigger] chars_eq_ci(a[i], b[i]))
}

/// The resolution mode a raw value selects, compared without regard to
/// ASCII case; anything but `"string"` and `"env"` selects none.
pub open spec fn mode_of(s: Seq<char>) -> Option<ResolutionMode> {
    if eq_ignore_ascii_case(s, "string"@) {
        Some(ResolutionMode::Literal)
    } else if eq_ignore_ascii_case(s, "env"@) {
        Some(ResolutionMode::EnvironmentIndirected)
    } else {
        None
    }
}

/// The codec a raw value selects, compared without regard to ASCII case;
/// anything but `"lz4"` and `"zstd"` selects none.
pub open spec fn algorithm_of(s: Seq<char>) -> Option<Algorithm> {
    if eq_ignore_ascii_case(s, "lz4"@) {
        Some(Algorithm::Lz4)
    } else if eq_ignore_ascii_case(s, "zstd"@) {
        Some(Algorithm::Zstd)
    } else {
        None
    }
}

fn char_eq_ci(a: char, b: char) -> (r: bool)
    ensures
        r == chars_eq_ci(a, b),
{
    let au = a as u32;
    let bu = b as u32;
    au == bu || (65 <= au && au <= 90 && bu == au + 32) || (65 <= bu && bu <= 90 && au == bu + 32)
}

/// Whether `a` and `b` are equal up to ASCII case.
pub fn str_eq_ignore_case(a: &str, b: &str) -> (r: bool)
    ensures
        r == eq_ignore_ascii_case(a@, b@),
{
    let alen: usize = a.unicode_len();
    let blen: usize = b.unicode_len();
    if alen != blen {
        return false;
    }
    let mut i: usize = 0;
    while i < alen
        invariant
            alen == a@.len(),
            alen == b@.len(),
            i <= alen,
            forall|j: int| 0 <= j < i ==> #[trigger] chars_eq_ci(a@[j], b@[j]),
        decreases alen - i,
    {
        if !char_eq_ci(a.get_char(i), b.get_char(i)) {
            return false;
        }
        i = i + 1;
    }
    true
}

fn parse_mode(s: &str) -> (r: Option<ResolutionMode>)
    ensures
        r == mode_of(s@),
{
    if str_eq_ignore_case(s, "string") {
        Some(ResolutionMode::Literal)
    } else if str_eq_ignore_case(s, "env") {
        Some(ResolutionMode::EnvironmentIndirected)
    } else {
        None
    }
}

fn parse_algorithm(s: &str) -> (r: Option<Algorithm>)
    ensures
        r == algorithm_of(s@),
{
    if str_eq_ignore_case(s, "lz4") {
        Some(Algorithm::Lz4)
    } else if str_eq_ignore_case(s, "zstd") {
        Some(Algorithm::Zstd)
    } else {
        None
    }
}

/// One environment variable in a snapshot.
pub struct EnvEntry {
    pub name: String,
    pub value: String,
}

/// A snapshot of environment variables, handed to the resolver by the build
/// driver; lookup takes the first entry with the asked-for name.
pub struct EnvMap {
    entries: Vec<EnvEntry>,
}

impl View for EnvMap {
    type V = Seq<(Seq<char>, Seq<char>)>;

    closed spec fn view(&self) -> Seq<(Seq<char>, Seq<char>)> {
        Seq::new(self.entries@.len(), |i: int| (self.entries@[i].name@, self.entries@[i].value@))
    }
}

/// The value of the first variable named `name`, if one is in the snapshot.
pub open spec fn lookup_spec(env: Seq<(Seq<char>, Seq<char>)>, name: Seq<char>) -> Option<
    Seq<char>,
>
    decreases env.len(),
{
    if env.len() == 0 {
        None
    } else if env[0].0 == name {
        Some(env[0].1)
    } else {
        lookup_spec(env.drop_first(), name)
    }
}

proof fn lemma_lookup_at(env: Seq<(Seq<char>, Seq<char>)>, name: Seq<char>, i: int)
    requires
        0 <= i < env.len(),
        env[i].0 == name,
        forall|j: int| 0 <= j < i ==> (#[trigger] env[j]).0 != name,
    ensures
        lookup_spec(env, name) == Some(env[i].1),
    decreases i,
{
    if i != 0 {
        assert(env[0].0 != name);
        lemma_lookup_at(env.drop_first(), name, i - 1);
    }
}

proof fn lemma_lookup_none(env: Seq<(Seq<char>, Seq<char>)>, name: Seq<char>)
    requires
        forall|j: int| 0 <= j < env.len() ==> (#[trigger] env[j]).0 != name,
    ensures
        lookup_spec(env, name) is None,
    decreases env.len(),
{
    if env.len() != 0 {
        lemma_lookup_none(env.drop_first(), name);
    }
}

impl EnvMap {
    /// An empty snapshot.
    pub fn new() -> (r: EnvMap)
        ensures
            r@.len() == 0,
    {
        EnvMap { entries: Vec::new() }
    }

    /// Adds one variable to the snapshot.
    pub fn insert(&mut self, name: String, value: String)
        ensures
            final(self)@ == old(self)@.push((name@, value@)),
    {
        let ghost before = self@;
        self.entries.push(EnvEntry { name, value });
        proof {
            assert(self@ =~= before.push((name@, value@)));
        }
    }

    /// The value of the first variable named `name`, if any.
    pub fn lookup(&self, name: &str) -> (r: Option<String>)
        ensures
            (match lookup_spec(self@, name@) {
                Some(v) => r matches Some(s) && s@ == v,
                None => r is None,
            }),
    {
        let n = self.entries.len();
        proof {
            assert(n == self@.len());
        }
        let mut i: usize = 0;
        while i < n
            invariant
                n == self.entries@.len(),
                n == self@.len(),
                i <= n,
                forall|j: int| 0 <= j < i ==> (#[trigger] self@[j]).0 != name@,
            decreases n - i,
        {
            proof {
                let entry = self.entries@[i as int];
                assert(self@[i as int] == (entry.name@, entry.value@));
            }
            if crate::text::str_eq(self.entries[i].name.as_str(), name) {
                proof {
                    lemma_lookup_at(self@, name@, i as int);
                }
                return Some(self.entries[i].value.clone());
            }
            i = i + 1;
        }
        proof {
            lemma_lookup_none(self@, name@);
        }
        None
    }
}

/// A resolved, validated build configuration, as mathematical values.
pub struct ConfigModel {
    pub names: Seq<Seq<char>>,
    pub files: Seq<Seq<char>>,
    pub compression_level: u32,
    pub algorithm: Algorithm,
}

/// The fatal build-time failures, as mathematical values.
pub enum ErrorModel {
    /// The resolution-mode value is neither `"string"` nor `"env"`.
    InvalidMode(Seq<char>),
    /// The algorithm value names no supported codec.
    InvalidAlgorithm(Seq<char>),
    /// A referenced environment variable is absent from the snapshot.
    MissingEnvVar(Seq<char>),
    /// The declared names and files disagree in number.
    CountMismatch(int, int),
    /// No file was declared.
    NoFiles,
    /// A declared file could not be read; carries its path.
    MissingFile(Seq<char>),
    /// The selected codec failed on a file's bytes; carries its path.
    CodecFailure(Seq<char>),
}

/// A resolved, validated build configuration: `names` and `files` are equal
/// in number and non-empty.
pub struct BuildConfig {
    pub names: Vec<String>,
    pub files: Vec<String>,
    pub compression_level: u32,
    pub algorithm: Algorithm,
}

impl View for BuildConfig {
    type V = ConfigModel;

    open spec fn view(&self) -> ConfigModel {
        ConfigModel {
            names: self.names.deep_view(),
            files: self.files.deep_view(),
            compression_level: self.compression_level,
            algorithm: self.algorithm,
        }
    }
}

impl BuildConfig {
    /// Validity: one name for each file, and at least one file.
    pub open spec fn wf(self) -> bool {
        self@.names.len() == self@.files.len() && self@.files.len() >= 1
    }
}

/// A fatal build-time failure: configuration, resolution, file, or codec.
#[derive(Debug)]
pub enum BuildError {
    /// The resolution-mode value is neither `"string"` nor `"env"`.
    InvalidMode(String),
    /// The algorithm value names no supported codec.
    InvalidAlgorithm(String),
    /// A referenced environment variable is absent; carries its name.
    MissingEnvVar(String),
    /// The declared names and files disagree in number (names, files).
    CountMismatch(usize, usize),
    /// No file was declared.
    NoFiles,
    /// A declared file could not be read; carries its path.
    MissingFile(String),
    /// The selected codec failed on a file's bytes; carries its path.
    CodecFailure(String),
}

impl View for BuildError {
    type V = ErrorModel;

    open spec fn view(&self) -> ErrorModel {
        match self {
            BuildError::InvalidMode(s) => ErrorModel::InvalidMode(s@),
            BuildError::InvalidAlgorithm(s) => ErrorModel::InvalidAlgorithm(s@),
            BuildError::MissingEnvVar(s) => ErrorModel::MissingEnvVar(s@),
            BuildError::CountMismatch(n, f) => ErrorModel::CountMismatch(*n as int, *f as int),
            BuildError::NoFiles => ErrorModel::NoFiles,
            BuildError::MissingFile(s) => ErrorModel::MissingFile(s@),
            BuildError::CodecFailure(s) => ErrorModel::CodecFailure(s@),
        }
    }
}

/// The string that stands for the file list: the raw value itself in
/// literal mode, the referenced variable's value under indirection.
pub open spec fn resolved_files(
    mode: ResolutionMode,
    files_raw: Seq<char>,
    env: Seq<(Seq<char>, Seq<char>)>,
) -> Option<Seq<char>> {
    match mode {
        ResolutionMode::Literal => Some(files_raw),
        ResolutionMode::EnvironmentIndirected => lookup_spec(env, files_raw),
    }
}

/// The string that stands for the name list: as for files, except that an
/// empty raw value stays empty (defaults apply later) instead of being
/// treated as a variable name.
pub open spec fn resolved_names(
    mode: ResolutionMode,
    names_raw: Seq<char>,
    env: Seq<(Seq<char>, Seq<char>)>,
) -> Option<Seq<char>> {
    match mode {
        ResolutionMode::Literal => Some(names_raw),
        ResolutionMode::EnvironmentIndirected => if names_raw.len() == 0 {
            Some(names_raw)
        } else {
            lookup_spec(env, names_raw)
        },
    }
}

/// The declared names after default-name derivation: an empty name list
/// becomes the files' final path components, in the same order.
pub open spec fn final_names(names_list: Seq<Seq<char>>, files_list: Seq<Seq<char>>) -> Seq<
    Seq<char>,
> {
    if names_list.len() == 0 {
        files_list.map_values(|f: Seq<char>| basename_of(f))
    } else {
        names_list
    }
}

/// What resolution yields on the given raw inputs: the validated
/// configuration, or the first fatal error in validation order (algorithm,
/// mode, file-list indirection, name-list indirection, counts, emptiness).
pub open spec fn resolve_spec(
    mode_raw: Seq<char>,
    names_raw: Seq<char>,
    files_raw: Seq<char>,
    compression_level: u32,
    algorithm_raw: Seq<char>,
    env: Seq<(Seq<char>, Seq<char>)>,
) -> Result<ConfigModel, ErrorModel> {
    match algorithm_of(algorithm_raw) {
        None => Err(ErrorModel::InvalidAlgorithm(algorithm_raw)),
        Some(algorithm) => match mode_of(mode_raw) {
            None => Err(ErrorModel::InvalidMode(mode_raw)),
            Some(mode) => match resolved_files(mode, files_raw, env) {
                None => Err(ErrorModel::MissingEnvVar(files_raw)),
                Some(files_str) => match resolved_names(mode, names_raw, env) {
                    None => Err(ErrorModel::MissingEnvVar(names_raw)),
                    Some(names_str) => {
                        let files = list_of(files_str);
                        let names = final_names(list_of(names_str), files);
                        if names.len() != files.len() {
                            Err(ErrorModel::CountMismatch(names.len() as int, files.len() as int))
                        } else if files.len() == 0 {
                            Err(ErrorModel::NoFiles)
                        } else {
                            Ok(
                                ConfigModel {
                                    names,
                                    files,
                                    compression_level,
                                    algorithm,
                                },
                            )
                        }
                    },
                },
            },
        },
    }
}

/// The executable result carries exactly the model's value.
pub open spec fn models(
    r: Result<BuildConfig, BuildError>,
    m: Result<ConfigModel, ErrorModel>,
) -> bool {
    match r {
        Ok(c) => m matches Ok(cm) && cm == c@,
        Err(e) => m matches Err(em) && em == e@,
    }
}

fn derive_basenames(files: &Vec<String>) -> (r: Vec<String>)
    ensures
        r.deep_view() == files.deep_view().map_values(|f: Seq<char>| basename_of(f)),
{
    let mut out: Vec<String> = Vec::new();
    let n = files.len();
    let mut i: usize = 0;
    while i < n
        invariant
            n == files@.len(),
            i <= n,
            out@.len() == i,
            forall|j: int|
                0 <= j < i ==> out.deep_view()[j] == basename_of(files.deep_view()[j]),
        decreases n - i,
    {
        proof {
            assert(files.deep_view()[i as int] == files@[i as int]@);
        }
        let b = basename(files[i].as_str());
        let ghost prevv = out@;
        let ghost prev = out.deep_view();
        out.push(b);
        proof {
            assert forall|j: int|
                0 <= j <= i implies out.deep_view()[j] == basename_of(
                files.deep_view()[j],
            ) by {
                assert(out.deep_view()[j] == out@[j]@);
                if j < i {
                    assert(prev[j] == prevv[j]@);
                    assert(out@[j] == prevv[j]);
                } else {
                    assert(out@[j] == b);
                }
            }
        }
        i = i + 1;
    }
    proof {
        assert(out.deep_view() =~= files.deep_view().map_values(|f: Seq<char>| basename_of(f)));
    }
    out
}

/// Resolves the raw declarative inputs into a validated configuration, or
/// the first fatal configuration error; the result is exactly what
/// `resolve_spec` says for these inputs.
pub fn resolve(
    mode_raw: &str,
    names_raw: &str,
    files_raw: &str,
    compression_level: u32,
    algorithm_raw: &str,
    env: &EnvMap,
) -> (r: Result<BuildConfig, BuildError>)
    ensures
        models(
            r,
            resolve_spec(mode_raw@, names_raw@, files_raw@, compression_level, algorithm_raw@, env@),
        ),
        (r matches Ok(c) ==> c.wf()),
{
    let algorithm = match parse_algorithm(algorithm_raw) {
        Some(a) => a,
        None => {
            return Err(BuildError::InvalidAlgorithm(algorithm_raw.to_owned()));
        },
    };
    let mode = match parse_mode(mode_raw) {
        Some(m) => m,
        None => {
            return Err(BuildError::InvalidMode(mode_raw.to_owned()));
        },
    };
    let files_str: String;
    let names_str: String;
    match mode {
        ResolutionMode::Literal => {
            files_str = files_raw.to_owned();
            names_str = names_raw.to_owned();
        },
        ResolutionMode::EnvironmentIndirected => {
            files_str = match env.lookup(files_raw) {
                Some(v) => v,
                None => {
                    return Err(BuildError::MissingEnvVar(files_raw.to_owned()));
                },
            };
            if names_raw.is_empty() {
                names_str = names_raw.to_owned();
            } else {
                names_str = match env.lookup(names_raw) {
                    Some(v) => v,
                    None => {
                        return Err(BuildError::MissingEnvVar(names_raw.to_owned()));
                    },
                };
            }
        },
    }
    let files = split_list(files_str.as_str());
    let names_listed = split_list(names_str.as_str());
    let names = if names_listed.len() == 0 {
        proof {
            assert(names_listed.deep_view().len() == 0);
        }
        derive_basenames(&files)
    } else {
        names_listed
    };
    proof {
        assert(names.deep_view().len() == names@.len());
        assert(files.deep_view().len() == files@.len());
    }
    if names.len() != files.len() {
        return Err(BuildError::CountMismatch(names.len(), files.len()));
    }
    if files.len() == 0 {
        return Err(BuildError::NoFiles);
    }
    Ok(BuildConfig { names, files, compression_level, algorithm })
}

/// Law: environment indirection is transparent. Resolving under mode
/// `"env"`, with variables holding the name and file lists, yields exactly
/// what resolving those variables' values under mode `"string"` yields.
pub proof fn lemma_env_indirection(
    mode_env: Seq<char>,
    mode_lit: Seq<char>,
    names_var: Seq<char>,
    files_var: Seq<char>,
    names_val: Seq<char>,
    files_val: Seq<char>,
    compression_level: u32,
    algorithm_raw: Seq<char>,
    env: Seq<(Seq<char>, Seq<char>)>,
)
    requires
        mode_of(mode_env) == Some(ResolutionMode::EnvironmentIndirected),
        mode_of(mode_lit) == Some(ResolutionMode::Literal),
        lookup_spec(env, files_var) == Some(files_val),
        names_var.len() > 0 ==> lookup_spec(env, names_var) == Some(names_val),
        names_var.len() == 0 ==> names_val == names_var,
    ensures
        resolve_spec(mode_env, names_var, files_var, compression_level, algorithm_raw, env)
            == resolve_spec(mode_lit, names_val, files_val, compression_level, algorithm_raw, env),
{
}

/// Law: mismatched counts are a build-time failure, and resolution never
/// yields a partial configuration — whenever it succeeds, the names and
/// files are equal in number and there is at least one file.
pub proof fn lemma_no_partial_config(
    mode_raw: Seq<char>,
    names_raw: Seq<char>,
    files_raw: Seq<char>,
    compression_level: u32,
    algorithm_raw: Seq<char>,
    env: Seq<(Seq<char>, Seq<char>)>,
)
    ensures
        (match resolve_spec(
            mode_raw,
            names_raw,
            files_raw,
            compression_level,
            algorithm_raw,
            env,
        ) {
            Ok(c) => c.names.len() == c.files.len() && c.files.len() >= 1,
            Err(_) => true,
        }),
{
}

} // verus!
