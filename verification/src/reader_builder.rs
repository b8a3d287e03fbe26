use vstd::prelude::*;
use vstd::string::StrSliceExecFns;
use vstd::string::StringExecFns;

use crate::config::Config;
use crate::config::Exclude;
use crate::config::Format;
use crate::config::Include;
use crate::field::Record;
use crate::reader::ReadError;
use crate::reader::Reader;
use crate::reader_json::fields_exclude_all;
use crate::reader_json::fields_exclude_list;
use crate::reader_json::fields_keep_list;
use crate::reader_json::JsonReader;
use crate::reader_regex::regex_compiles;
use crate::reader_regex::regex_group_names;
use crate::reader_regex::regex_is_match;
use crate::reader_regex::Pattern;
use crate::reader_regex::RegexReader;
use crate::source::Source;
use crate::source::SourceType;
use crate::text;

verus! {

/// A fatal configuration error: nothing can be tailed until the
/// configuration is mended, so resolution stops and the error is surfaced
/// before any tailing starts.
#[derive(Debug)]
pub enum BuildError {
    /// A configured regular expression does not compile; holds the full
    /// diagnostic.
    InvalidPattern(String),
    /// No format of this name is available — it does not exist, or an
    /// earlier binding already claimed it.
    NoSuchFormat(String),
    /// No path pattern matched this path and no default format is set.
    NoPathMatch(String),
    /// An input asked for standard input, but standard input is not
    /// connected.
    StdinNotConnected,
    /// Standard input must be attached, but no default format is set.
    NoStdinFormat,
}

impl BuildError {
    /// A human-readable description of the error.
    pub fn message(&self) -> (r: String)
        ensures
            match self {
                BuildError::InvalidPattern(m) => r@ == m@,
                BuildError::NoSuchFormat(n) => r@ == "there's no format with name: "@ + n@,
                BuildError::NoPathMatch(p) => r@ == "no path matches found for "@ + p@
                    + ". there is no default_format set either. exiting."@,
                BuildError::StdinNotConnected => r@ == "stdin was defined but it is not in use"@,
                BuildError::NoStdinFormat => r@
                    == "stdin is used but there's no format defined for it"@,
            },
    {
        match self {
            BuildError::InvalidPattern(m) => m.clone(),
            BuildError::NoSuchFormat(n) => {
                let mut s = "there's no format with name: ".to_owned();
                s.append(n.as_str());
                s
            },
            BuildError::NoPathMatch(p) => {
                let mut s = "no path matches found for ".to_owned();
                s.append(p.as_str());
                s.append(". there is no default_format set either. exiting.");
                s
            },
            BuildError::StdinNotConnected => "stdin was defined but it is not in use".to_owned(),
            BuildError::NoStdinFormat => {
                "stdin is used but there's no format defined for it".to_owned()
            },
        }
    }
}

/// A reader bound to one input: the closed set of extractor strategies.
#[derive(Debug)]
pub enum BoundReader {
    Json(JsonReader),
    Regex(RegexReader),
}

impl BoundReader {
    pub open spec fn position_spec(self) -> int {
        match self {
            BoundReader::Json(j) => j.position_spec(),
            BoundReader::Regex(r) => r.position_spec(),
        }
    }
}

impl Reader for BoundReader {
    open spec fn source_type_spec(&self) -> SourceType {
        match self {
            BoundReader::Json(j) => j.source_type_spec(),
            BoundReader::Regex(r) => r.source_type_spec(),
        }
    }

    open spec fn read_ens(pre: Self, post: Self, data: Option<Seq<char>>, r: Result<
        Record,
        ReadError,
    >) -> bool {
        match (pre, post) {
            (BoundReader::Json(a), BoundReader::Json(b)) => JsonReader::read_ens(a, b, data, r),
            (BoundReader::Regex(a), BoundReader::Regex(b)) => RegexReader::read_ens(a, b, data, r),
            _ => false,
        }
    }

    fn source_type(&self) -> (r: SourceType) {
        match self {
            BoundReader::Json(j) => j.source_type(),
            BoundReader::Regex(r) => r.source_type(),
        }
    }

    fn read_fields(&mut self, data: Option<&str>) -> (r: Result<Record, ReadError>) {
        match self {
            BoundReader::Json(j) => j.read_fields(data),
            BoundReader::Regex(r) => r.read_fields(data),
        }
    }
}

/// The extractor configuration a binding settles on, in mathematical form.
pub enum Strategy {
    JsonStrategy { exclude_all: bool, exclude: Seq<Seq<char>>, keep: Seq<Seq<char>> },
    RegexStrategy { pattern: Seq<char> },
}

/// One planned binding: which strategy reads which input.
pub struct Planned {
    pub strategy: Strategy,
    pub is_stdin: bool,
    pub path: Seq<char>,
}

/// Why planning a binding fails.
pub enum PlanError {
    PlanInvalidPattern(Seq<char>),
    PlanNoSuchFormat(Seq<char>),
    PlanNoPathMatch,
    PlanStdinNotConnected,
    PlanNoStdinFormat,
}

/// Whether a surfaced error reports the planned failure.
pub open spec fn err_fits(e: BuildError, k: PlanError) -> bool {
    match (e, k) {
        (BuildError::InvalidPattern(_), PlanError::PlanInvalidPattern(_)) => true,
        (BuildError::NoSuchFormat(n), PlanError::PlanNoSuchFormat(s)) => n@ == s,
        (BuildError::NoPathMatch(_), PlanError::PlanNoPathMatch) => true,
        (BuildError::StdinNotConnected, PlanError::PlanStdinNotConnected) => true,
        (BuildError::NoStdinFormat, PlanError::PlanNoStdinFormat) => true,
        _ => false,
    }
}

/// Whether a built reader carries a strategy.
pub open spec fn reader_has_strategy(b: BoundReader, st: Strategy) -> bool {
    match st {
        Strategy::JsonStrategy { exclude_all, exclude, keep } => {
            &&& b matches BoundReader::Json(jr)
            &&& jr.excludes_all() == exclude_all
            &&& jr.exclude_view() == exclude
            &&& jr.keep_view() == keep
        },
        Strategy::RegexStrategy { pattern } => {
            &&& b matches BoundReader::Regex(rr)
            &&& regex_compiles(pattern)
            &&& rr.pattern_view() == pattern
            &&& rr.capture_names_view() == regex_group_names(pattern)
        },
    }
}

/// Whether a built reader is the planned binding: right strategy, right
/// source, position at the start.
pub open spec fn reader_fits(b: BoundReader, p: Planned) -> bool {
    &&& b.position_spec() == 0
    &&& match b.source_type_spec() {
        SourceType::Stdin => p.is_stdin,
        SourceType::File(f) => !p.is_stdin && f@ == p.path,
    }
    &&& reader_has_strategy(b, p.strategy)
}

/// The name of the first configured path pattern that matches `path`, in
/// configuration order.
pub open spec fn first_match_name(pm: Seq<(String, Pattern)>, path: Seq<char>) -> Option<Seq<char>>
    decreases pm.len(),
{
    if pm.len() == 0 {
        None
    } else if regex_is_match(pm.first().1@, path) {
        Some(pm.first().0@)
    } else {
        first_match_name(pm.drop_first(), path)
    }
}

/// The format name path-based resolution picks for `path`: the first
/// matching path pattern, else the default format, else nothing.
pub open spec fn resolved_name(
    pm: Seq<(String, Pattern)>,
    dflt: Option<Seq<char>>,
    path: Seq<char>,
) -> Option<Seq<char>> {
    match first_match_name(pm, path) {
        Some(n) => Some(n),
        None => dflt,
    }
}

/// The index of the first format entry named `name`, if any.
pub open spec fn format_index(formats: Seq<(String, Format)>, name: Seq<char>) -> Option<int>
    decreases formats.len(),
{
    if formats.len() == 0 {
        None
    } else if formats.first().0@ == name {
        Some(0)
    } else {
        match format_index(formats.drop_first(), name) {
            Some(i) => Some(i + 1),
            None => None,
        }
    }
}

pub proof fn lemma_format_index(formats: Seq<(String, Format)>, name: Seq<char>)
    ensures
        match format_index(formats, name) {
            Some(i) => 0 <= i < formats.len() && formats[i].0@ == name && forall|j: int|
                0 <= j < i ==> formats[j].0@ != name,
            None => forall|j: int| 0 <= j < formats.len() ==> formats[j].0@ != name,
        },
    decreases formats.len(),
{
    if formats.len() > 0 && formats.first().0@ != name {
        lemma_format_index(formats.drop_first(), name);
        match format_index(formats.drop_first(), name) {
            Some(i) => {
                assert(formats[i + 1] == formats.drop_first()[i]);
                assert forall|j: int| 0 <= j < i + 1 implies formats[j].0@ != name by {
                    if j > 0 {
                        assert(formats.drop_first()[j - 1].0@ != name);
                    }
                }
            },
            None => {
                assert forall|j: int| 0 <= j < formats.len() implies formats[j].0@ != name by {
                    if j > 0 {
                        assert(formats.drop_first()[j - 1].0@ != name);
                    }
                }
            },
        }
    }
}

/// A format name can be claimed only once: after the entry is taken, no
/// entry of that name is left, so binding the same name to a second input
/// fails — provided the names were unique to begin with, as they are in a
/// mapping.
pub proof fn lemma_format_claimed_once(formats: Seq<(String, Format)>, name: Seq<char>, i: int)
    requires
        forall|p: int, q: int| 0 <= p < q < formats.len() ==> formats[p].0@ != formats[q].0@,
        format_index(formats, name) == Some(i),
    ensures
        format_index(formats.remove(i), name) is None,
{
    lemma_format_index(formats, name);
    lemma_format_index(formats.remove(i), name);
    match format_index(formats.remove(i), name) {
        Some(j) => {
            if j < i {
                assert(formats.remove(i)[j] == formats[j]);
            } else {
                assert(formats.remove(i)[j] == formats[j + 1]);
            }
        },
        None => {},
    }
}

/// The strategy a format settles on, or the pattern text that fails to
/// compile.
pub open spec fn plan_strategy(fmt: Format) -> Result<Strategy, Seq<char>> {
    match fmt {
        Format::JsonFormat { fields } => Ok(
            Strategy::JsonStrategy {
                exclude_all: fields_exclude_all(fields),
                exclude: fields_exclude_list(fields),
                keep: fields_keep_list(fields),
            },
        ),
        Format::RegexFormat { format: pat, fields } => if regex_compiles(pat@) {
            Ok(Strategy::RegexStrategy { pattern: pat@ })
        } else {
            Err(pat@)
        },
    }
}

/// How one requested input resolves: its format name comes from the
/// explicit `<format>:<path>` prefix or from path-based resolution; the
/// named format entry is claimed; the path token "stdin" asks for standard
/// input and demands it be connected. Either way the claimed entry is gone
/// afterwards.
pub open spec fn plan_one(
    formats: Seq<(String, Format)>,
    pm: Seq<(String, Pattern)>,
    dflt: Option<Seq<char>>,
    src: Seq<char>,
    stdin_connected: bool,
) -> Result<(Planned, Seq<(String, Format)>), (PlanError, Seq<(String, Format)>)> {
    let colon = text::find_char_spec(src, ':');
    let path = match colon {
        Some(i) => src.skip(i + 1),
        None => src,
    };
    let name_opt = match colon {
        Some(i) => Some(src.take(i)),
        None => resolved_name(pm, dflt, path),
    };
    match name_opt {
        None => Err((PlanError::PlanNoPathMatch, formats)),
        Some(name) => match format_index(formats, name) {
            None => Err((PlanError::PlanNoSuchFormat(name), formats)),
            Some(fi) => {
                let fmt = formats[fi].1;
                let left = formats.remove(fi);
                let is_stdin = path == "stdin"@;
                if is_stdin && !stdin_connected {
                    Err((PlanError::PlanStdinNotConnected, left))
                } else {
                    match plan_strategy(fmt) {
                        Err(pat) => Err((PlanError::PlanInvalidPattern(pat), left)),
                        Ok(st) => Ok((Planned { strategy: st, is_stdin, path }, left)),
                    }
                }
            },
        },
    }
}

/// How a list of requested inputs resolves, in order, each claiming its
/// format from what the previous ones left; the first failure stops
/// resolution.
pub open spec fn plan_sources(
    formats: Seq<(String, Format)>,
    pm: Seq<(String, Pattern)>,
    dflt: Option<Seq<char>>,
    sources: Seq<Seq<char>>,
    stdin_connected: bool,
) -> Result<(Seq<Planned>, Seq<(String, Format)>), (PlanError, Seq<(String, Format)>)>
    decreases sources.len(),
{
    if sources.len() == 0 {
        Ok((Seq::empty(), formats))
    } else {
        match plan_sources(formats, pm, dflt, sources.drop_last(), stdin_connected) {
            Err(e) => Err(e),
            Ok((planned, left)) => match plan_one(left, pm, dflt, sources.last(), stdin_connected) {
                Err(e2) => Err(e2),
                Ok((p, left2)) => Ok((planned.push(p), left2)),
            },
        }
    }
}

/// Whether some planned binding already reads standard input.
pub open spec fn stdin_planned(planned: Seq<Planned>) -> bool {
    exists|i: int| 0 <= i < planned.len() && planned[i].is_stdin
}

/// The whole resolution: every requested input is bound, and if standard
/// input is connected but no binding claimed it, it is attached under the
/// default format — piped input is never silently dropped.
pub open spec fn plan_build(
    formats: Seq<(String, Format)>,
    pm: Seq<(String, Pattern)>,
    dflt: Option<Seq<char>>,
    sources: Seq<Seq<char>>,
    stdin_connected: bool,
) -> Result<(Seq<Planned>, Seq<(String, Format)>), (PlanError, Seq<(String, Format)>)> {
    match plan_sources(formats, pm, dflt, sources, stdin_connected) {
        Err(e) => Err(e),
        Ok((planned, left)) => {
            if stdin_connected && !stdin_planned(planned) {
                match dflt {
                    None => Err((PlanError::PlanNoStdinFormat, left)),
                    Some(d) => match format_index(left, d) {
                        None => Err((PlanError::PlanNoSuchFormat(d), left)),
                        Some(fi) => match plan_strategy(left[fi].1) {
                            Err(pat) => Err(
                                (PlanError::PlanInvalidPattern(pat), left.remove(fi)),
                            ),
                            Ok(st) => Ok(
                                (
                                    planned.push(
                                        Planned { strategy: st, is_stdin: true, path: "stdin"@ },
                                    ),
                                    left.remove(fi),
                                ),
                            ),
                        },
                    },
                }
            } else {
                Ok((planned, left))
            }
        },
    }
}

/// Binds each requested input to exactly one extractor. Claims format
/// entries as it binds them: each format name is available to at most one
/// binding in a run.
#[derive(Debug)]
pub struct ReaderBuilder {
    config: Config,
    path_matches: Vec<(String, Pattern)>,
}

impl ReaderBuilder {
    pub closed spec fn formats_view(self) -> Seq<(String, Format)> {
        self.config.formats@
    }

    pub closed spec fn patterns_view(self) -> Seq<(String, Pattern)> {
        self.path_matches@
    }

    pub closed spec fn default_view(self) -> Option<Seq<char>> {
        match self.config.default_format {
            Some(d) => Some(d@),
            None => None,
        }
    }

    /// Compile the configured path patterns. Fails exactly when one of them
    /// is not a valid pattern.
    pub fn new(config: Config) -> (r: Result<Self, BuildError>)
        ensures
            match r {
                Ok(b) => {
                    &&& b.formats_view() == config.formats@
                    &&& (match config.default_format {
                        Some(d) => b.default_view() == Some(d@),
                        None => b.default_view() is None,
                    })
                    &&& b.patterns_view().len() == config.path_matches@.len()
                    &&& forall|i: int|
                        0 <= i < config.path_matches@.len() ==> (#[trigger] b.patterns_view()[i]).0@
                            == config.path_matches@[i].0@ && b.patterns_view()[i].1@
                            == config.path_matches@[i].1@ && regex_compiles(
                            config.path_matches@[i].1@,
                        )
                },
                Err(e) => e matches BuildError::InvalidPattern(_) && exists|i: int|
                    0 <= i < config.path_matches@.len() && !regex_compiles(
                        #[trigger] config.path_matches@[i].1@,
                    ),
            },
    {
        let mut path_matches: Vec<(String, Pattern)> = Vec::new();
        let mut i: usize = 0;
        while i < config.path_matches.len()
            invariant
                0 <= i <= config.path_matches@.len(),
                path_matches@.len() == i,
                forall|j: int|
                    0 <= j < i ==> (#[trigger] path_matches@[j]).0@ == config.path_matches@[j].0@
                        && path_matches@[j].1@ == config.path_matches@[j].1@ && regex_compiles(
                        config.path_matches@[j].1@,
                    ),
            decreases config.path_matches@.len() - i,
        {
            let name = config.path_matches[i].0.clone();
            let pat_text = &config.path_matches[i].1;
            match Pattern::compile(pat_text.as_str()) {
                Ok(p) => {
                    path_matches.push((name, p));
                },
                Err(e) => {
                    let mut msg = "invalid regex: `".to_owned();
                    msg.append(pat_text.as_str());
                    msg.append("` because: ");
                    msg.append(e.as_str());
                    return Err(BuildError::InvalidPattern(msg));
                },
            }
            i += 1;
        }
        Ok(ReaderBuilder { config, path_matches })
    }

    /// The format name that path-based resolution picks for `file_path`:
    /// the first configured path pattern that matches, in configuration
    /// order, else the default format; an error exactly when neither
    /// exists.
    pub fn format_name_from_file_path(&self, file_path: &str) -> (r: Result<String, BuildError>)
        ensures
            match r {
                Ok(name) => resolved_name(self.patterns_view(), self.default_view(), file_path@)
                    == Some(name@),
                Err(e) => {
                    &&& resolved_name(self.patterns_view(), self.default_view(), file_path@)
                        is None
                    &&& e matches BuildError::NoPathMatch(p) && p@ == file_path@
                },
            },
    {
        let mut i: usize = 0;
        while i < self.path_matches.len()
            invariant
                0 <= i <= self.path_matches@.len(),
                forall|j: int|
                    0 <= j < i ==> !regex_is_match(
                        (#[trigger] self.path_matches@[j]).1@,
                        file_path@,
                    ),
            decreases self.path_matches@.len() - i,
        {
            if self.path_matches[i].1.is_match(file_path) {
                proof {
                    lemma_first_match_at(self.path_matches@, file_path@, i as int);
                }
                return Ok(self.path_matches[i].0.clone());
            }
            i += 1;
        }
        proof {
            lemma_no_match(self.path_matches@, file_path@);
        }
        match &self.config.default_format {
            Some(d) => Ok(d.clone()),
            None => Err(BuildError::NoPathMatch(file_path.to_owned())),
        }
    }

    /// Claim the format entry of this name: the first such entry is removed
    /// and returned; an error exactly when none is left.
    fn find_format(&mut self, format_name: &str) -> (r: Result<Format, BuildError>)
        ensures
            final(self).patterns_view() == old(self).patterns_view(),
            final(self).default_view() == old(self).default_view(),
            match format_index(old(self).formats_view(), format_name@) {
                Some(i) => {
                    &&& r matches Ok(f) && f == old(self).formats_view()[i].1
                    &&& final(self).formats_view() == old(self).formats_view().remove(i)
                },
                None => {
                    &&& r matches Err(e) && e matches BuildError::NoSuchFormat(n) && n@
                        == format_name@
                    &&& final(self).formats_view() == old(self).formats_view()
                },
            },
    {
        let mut i: usize = 0;
        while i < self.config.formats.len()
            invariant
                0 <= i <= self.config.formats@.len(),
                *self == *old(self),
                forall|j: int| 0 <= j < i ==> (#[trigger] self.config.formats@[j]).0@
                    != format_name@,
            decreases self.config.formats@.len() - i,
        {
            if text::str_eq(self.config.formats[i].0.as_str(), format_name) {
                proof {
                    lemma_format_index_at(self.config.formats@, format_name@, i as int);
                }
                let entry = self.config.formats.remove(i);
                return Ok(entry.1);
            }
            i += 1;
        }
        proof {
            lemma_format_index(self.config.formats@, format_name@);
        }
        Err(BuildError::NoSuchFormat(format_name.to_owned()))
    }

    /// Bind a source to the extractor a format describes. Fails exactly
    /// when the format's pattern does not compile.
    fn new_reader(&self, source: Source, format: Format) -> (r: Result<BoundReader, BuildError>)
        ensures
            match plan_strategy(format) {
                Ok(st) => {
                    &&& r matches Ok(b)
                    &&& reader_has_strategy(b, st)
                    &&& b.source_type_spec() == source.source_type_spec()
                    &&& b.position_spec() == source.position_spec()
                },
                Err(_) => r matches Err(e) && e matches BuildError::InvalidPattern(_),
            },
    {
        match format {
            Format::JsonFormat { fields } => {
                let exclude = match fields.exclude {
                    Some(e) => e,
                    None => {
                        let v: Vec<String> = Vec::new();
                        proof {
                            assert(v.deep_view() =~= Seq::<Seq<char>>::empty());
                        }
                        Exclude::ExcludeMany(v)
                    },
                };
                let keep = match fields.keep {
                    Some(k) => k,
                    None => {
                        let v: Vec<String> = Vec::new();
                        proof {
                            assert(v.deep_view() =~= Seq::<Seq<char>>::empty());
                        }
                        Include::IncludeMany(v)
                    },
                };
                Ok(BoundReader::Json(JsonReader::new(source, exclude, keep)))
            },
            Format::RegexFormat { format: pat, fields: _ } => {
                match Pattern::compile(pat.as_str()) {
                    Ok(p) => Ok(BoundReader::Regex(RegexReader::new(p, source))),
                    Err(e) => {
                        let mut msg = "regex failed for `".to_owned();
                        msg.append(pat.as_str());
                        msg.append("` because ");
                        msg.append(e.as_str());
                        Err(BuildError::InvalidPattern(msg))
                    },
                }
            },
        }
    }

    /// Bind one requested input, as `plan_one` lays it out.
    fn build_one(&mut self, source: &String, stdin_connected: bool) -> (r: Result<
        (BoundReader, bool),
        BuildError,
    >)
        ensures
            final(self).patterns_view() == old(self).patterns_view(),
            final(self).default_view() == old(self).default_view(),
            match plan_one(
                old(self).formats_view(),
                old(self).patterns_view(),
                old(self).default_view(),
                source@,
                stdin_connected,
            ) {
                Ok((p, left)) => {
                    &&& r matches Ok(pair) && reader_fits(pair.0, p) && pair.1 == p.is_stdin
                    &&& final(self).formats_view() == left
                },
                Err((k, left)) => {
                    &&& r matches Err(e) && err_fits(e, k)
                    &&& final(self).formats_view() == left
                },
            },
    {
        let s = source.as_str();
        let (format_name, file_path): (String, String) = match text::find_char(s, ':') {
            Some(i) => {
                let len = s.unicode_len();
                proof {
                    text::lemma_find_char_spec(s@, ':');
                }
                let name = s.substring_char(0, i).to_owned();
                let path = s.substring_char(i + 1, len).to_owned();
                proof {
                    assert(name@ =~= s@.take(find_char_val(s@)));
                    assert(path@ =~= s@.skip(find_char_val(s@) + 1));
                }
                (name, path)
            },
            None => {
                let name = match self.format_name_from_file_path(s) {
                    Ok(n) => n,
                    Err(e) => {
                        return Err(e);
                    },
                };
                (name, s.to_owned())
            },
        };
        let format = match self.find_format(format_name.as_str()) {
            Ok(f) => f,
            Err(e) => {
                return Err(e);
            },
        };
        let mut stdin_used = false;
        let src = if text::str_eq(file_path.as_str(), "stdin") {
            if !stdin_connected {
                return Err(BuildError::StdinNotConnected);
            }
            stdin_used = true;
            Source::new(SourceType::Stdin)
        } else {
            Source::new(SourceType::File(file_path))
        };
        match self.new_reader(src, format) {
            Ok(b) => Ok((b, stdin_used)),
            Err(e) => Err(e),
        }
    }

    /// Bind every requested input, then attach standard input under the
    /// default format if it is connected and still unclaimed, as
    /// `plan_build` lays it out.
    pub fn build(&mut self, sources: Vec<String>, stdin_connected: bool) -> (r: Result<
        Vec<BoundReader>,
        BuildError,
    >)
        ensures
            final(self).patterns_view() == old(self).patterns_view(),
            final(self).default_view() == old(self).default_view(),
            match plan_build(
                old(self).formats_view(),
                old(self).patterns_view(),
                old(self).default_view(),
                sources.deep_view(),
                stdin_connected,
            ) {
                Ok((planned, left)) => {
                    &&& r matches Ok(readers)
                    &&& readers@.len() == planned.len()
                    &&& forall|i: int|
                        0 <= i < planned.len() ==> reader_fits(#[trigger] readers@[i], planned[i])
                    &&& final(self).formats_view() == left
                },
                Err((k, left)) => {
                    &&& r matches Err(e) && err_fits(e, k)
                    &&& final(self).formats_view() == left
                },
            },
    {
        let ghost formats0 = self.formats_view();
        let ghost pm = self.patterns_view();
        let ghost dflt = self.default_view();
        let ghost srcs = sources.deep_view();
        let mut readers: Vec<BoundReader> = Vec::new();
        let mut stdin_used = false;
        let mut idx: usize = 0;
        proof {
            assert(srcs.take(0) =~= Seq::<Seq<char>>::empty());
        }
        while idx < sources.len()
            invariant
                0 <= idx <= sources@.len(),
                srcs == sources.deep_view(),
                srcs.len() == sources@.len(),
                formats0 == old(self).formats_view(),
                pm == old(self).patterns_view(),
                dflt == old(self).default_view(),
                self.patterns_view() == pm,
                self.default_view() == dflt,
                plan_sources(formats0, pm, dflt, srcs.take(idx as int), stdin_connected) matches Ok(
                    pair,
                ) && pair.1 == self.formats_view() && readers@.len() == pair.0.len() && (forall|
                    i: int,
                |
                    0 <= i < pair.0.len() ==> reader_fits(
                        #[trigger] readers@[i],
                        pair.0[i],
                    )) && stdin_used == stdin_planned(pair.0),
            decreases sources@.len() - idx,
        {
            let ghost pre_planned = plan_sources(
                formats0,
                pm,
                dflt,
                srcs.take(idx as int),
                stdin_connected,
            )->Ok_0;
            let res = self.build_one(&sources[idx], stdin_connected);
            proof {
                assert(srcs.take(idx + 1).drop_last() =~= srcs.take(idx as int));
                assert(srcs.take(idx + 1).last() == sources@[idx as int]@);
            }
            match res {
                Ok(pair) => {
                    readers.push(pair.0);
                    if pair.1 {
                        stdin_used = true;
                    }
                    proof {
                        let p = plan_one(
                            pre_planned.1,
                            pm,
                            dflt,
                            sources@[idx as int]@,
                            stdin_connected,
                        )->Ok_0;
                        assert(stdin_planned(pre_planned.0.push(p.0)) == (stdin_planned(
                            pre_planned.0,
                        ) || p.0.is_stdin)) by {
                            lemma_stdin_planned_push(pre_planned.0, p.0);
                        }
                    }
                },
                Err(e) => {
                    proof {
                        lemma_plan_sources_err_extends(
                            formats0,
                            pm,
                            dflt,
                            srcs,
                            idx + 1,
                            stdin_connected,
                        );
                    }
                    return Err(e);
                },
            }
            idx += 1;
        }
        proof {
            assert(srcs.take(srcs.len() as int) =~= srcs);
        }
        if stdin_connected && !stdin_used {
            let dname = match &self.config.default_format {
                Some(d) => d.clone(),
                None => {
                    return Err(BuildError::NoStdinFormat);
                },
            };
            let format = match self.find_format(dname.as_str()) {
                Ok(f) => f,
                Err(e) => {
                    return Err(e);
                },
            };
            let src = Source::new(SourceType::Stdin);
            match self.new_reader(src, format) {
                Ok(b) => {
                    readers.push(b);
                },
                Err(e) => {
                    return Err(e);
                },
            }
        }
        Ok(readers)
    }
}

/// The value under `find_char_spec` when it is `Some`.
pub open spec fn find_char_val(s: Seq<char>) -> int {
    text::find_char_spec(s, ':')->Some_0
}

/// Once resolution has failed on a prefix of the inputs, the remaining
/// inputs change nothing.
proof fn lemma_plan_sources_err_extends(
    formats: Seq<(String, Format)>,
    pm: Seq<(String, Pattern)>,
    dflt: Option<Seq<char>>,
    sources: Seq<Seq<char>>,
    k: int,
    stdin_connected: bool,
)
    requires
        0 <= k <= sources.len(),
        plan_sources(formats, pm, dflt, sources.take(k), stdin_connected) is Err,
    ensures
        plan_sources(formats, pm, dflt, sources, stdin_connected) == plan_sources(
            formats,
            pm,
            dflt,
            sources.take(k),
            stdin_connected,
        ),
    decreases sources.len() - k,
{
    if k < sources.len() {
        assert(sources.take(k + 1).drop_last() =~= sources.take(k));
        assert(sources.take(k + 1).len() == k + 1);
        lemma_plan_sources_err_extends(formats, pm, dflt, sources, k + 1, stdin_connected);
    } else {
        assert(sources.take(k) =~= sources);
    }
}

proof fn lemma_stdin_planned_push(planned: Seq<Planned>, p: Planned)
    ensures
        stdin_planned(planned.push(p)) == (stdin_planned(planned) || p.is_stdin),
{
    if stdin_planned(planned) {
        let i = choose|i: int| 0 <= i < planned.len() && planned[i].is_stdin;
        assert(planned.push(p)[i].is_stdin);
    }
    if p.is_stdin {
        assert(planned.push(p)[planned.len() as int].is_stdin);
    }
    if stdin_planned(planned.push(p)) {
        let i = choose|i: int| 0 <= i < planned.push(p).len() && planned.push(p)[i].is_stdin;
        if i < planned.len() {
            assert(planned[i].is_stdin);
        }
    }
}

proof fn lemma_first_match_at(pm: Seq<(String, Pattern)>, path: Seq<char>, i: int)
    requires
        0 <= i < pm.len(),
        regex_is_match(pm[i].1@, path),
        forall|j: int| 0 <= j < i ==> !regex_is_match((#[trigger] pm[j]).1@, path),
    ensures
        first_match_name(pm, path) == Some(pm[i].0@),
    decreases i,
{
    if i > 0 {
        lemma_first_match_at(pm.drop_first(), path, i - 1);
        assert(pm.drop_first()[i - 1] == pm[i]);
        assert(forall|j: int|
            0 <= j < i - 1 ==> (#[trigger] pm.drop_first()[j]) == pm[j + 1]);
    }
}

proof fn lemma_no_match(pm: Seq<(String, Pattern)>, path: Seq<char>)
    requires
        forall|j: int| 0 <= j < pm.len() ==> !regex_is_match((#[trigger] pm[j]).1@, path),
    ensures
        first_match_name(pm, path) is None,
    decreases pm.len(),
{
    if pm.len() > 0 {
        assert(forall|j: int|
            0 <= j < pm.drop_first().len() ==> (#[trigger] pm.drop_first()[j]) == pm[j + 1]);
        lemma_no_match(pm.drop_first(), path);
    }
}

proof fn lemma_format_index_at(formats: Seq<(String, Format)>, name: Seq<char>, i: int)
    requires
        0 <= i < formats.len(),
        formats[i].0@ == name,
        forall|j: int| 0 <= j < i ==> (#[trigger] formats[j]).0@ != name,
    ensures
        format_index(formats, name) == Some(i),
    decreases i,
{
    if i > 0 {
        lemma_format_index_at(formats.drop_first(), name, i - 1);
        assert(formats.drop_first()[i - 1] == formats[i]);
        assert(forall|j: int|
            0 <= j < i - 1 ==> (#[trigger] formats.drop_first()[j]) == formats[j + 1]);
    }
}

} // verus!
