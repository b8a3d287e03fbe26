use vstd::prelude::*;
use vstd::string::StrSliceExecFns;

use crate::field::Field;
use crate::field::Record;
use crate::reader::ReadError;
use crate::reader::Reader;
use crate::reader_json::key_selected;
use crate::reader_json::lemma_no_selection_keeps_all;
use crate::reader_json::lemma_selected_upto_step;
use crate::reader_json::selected;
use crate::reader_json::selected_upto;
use crate::source::line_at;
use crate::source::next_pos;
use crate::source::Source;
use crate::source::SourceType;
use crate::text;

verus! {

#[verifier::external_type_specification]
#[verifier::external_body]
pub struct ExRegex(regex::Regex);

/// Whether the regex crate accepts `p` as a pattern. A function of the
/// characters alone.
pub uninterp spec fn regex_compiles(p: Seq<char>) -> bool;

/// The names of the named capture groups of pattern `p`, in group order;
/// unnamed groups do not appear. A function of the pattern's characters
/// alone.
pub uninterp spec fn regex_group_names(p: Seq<char>) -> Seq<Seq<char>>;

/// How pattern `p` matches the text `s`: `None` when it does not match;
/// otherwise the mapping from each named group that participated in the
/// leftmost match to the text it captured. A group that did not participate
/// is absent from the mapping. A function of the characters alone.
pub uninterp spec fn regex_captures(p: Seq<char>, s: Seq<char>) -> Option<
    Map<Seq<char>, Seq<char>>,
>;

/// Whether pattern `p` matches somewhere in the text `s`. A function of the
/// characters alone.
pub uninterp spec fn regex_is_match(p: Seq<char>, s: Seq<char>) -> bool;

/// A compiled regular expression, kept beside the pattern text it was
/// compiled from. Contracts speak of the pattern text; the compiled form is
/// what the regex crate built from exactly that text.
#[derive(Debug)]
pub struct Pattern {
    re: regex::Regex,
    text: String,
}

impl View for Pattern {
    type V = Seq<char>;

    closed spec fn view(&self) -> Seq<char> {
        self.text@
    }
}

impl Pattern {
    /// Relies on regex::Regex::new: compiles the pattern, or says why it is
    /// not a valid one. Whether a pattern compiles depends on its characters
    /// alone.
    #[verifier::external_body]
    pub fn compile(pattern: &str) -> (r: Result<Pattern, String>)
        ensures
            r matches Ok(p) ==> regex_compiles(pattern@) && p@ == pattern@,
            r matches Err(_) ==> !regex_compiles(pattern@),
    {
        match regex::Regex::new(pattern) {
            Ok(re) => Ok(Pattern { re, text: pattern.to_string() }),
            Err(e) => Err(e.to_string()),
        }
    }

    /// Relies on regex::Regex::capture_names: the named capture groups in
    /// group order; they depend on the pattern's characters alone.
    #[verifier::external_body]
    pub fn group_names(&self) -> (r: Vec<String>)
        ensures
            r.deep_view() == regex_group_names(self@),
    {
        self.re.capture_names().filter_map(|n| n.map(|s| s.to_string())).collect()
    }

    /// Relies on regex::Regex::captures, Captures::name and Match::as_str:
    /// `None` exactly when the pattern does not match; otherwise one pair
    /// per named group that participated in the leftmost match, with the
    /// text it captured. The outcome depends on the characters alone.
    #[verifier::external_body]
    fn captures_pairs(&self, line: &str) -> (r: Option<Vec<(String, String)>>)
        ensures
            match (r, regex_captures(self@, line@)) {
                (Some(pairs), Some(m)) => {
                    &&& m.dom().finite()
                    &&& pairs@.len() == m.dom().len()
                    &&& forall|i: int, j: int|
                        0 <= i < j < pairs@.len() ==> pairs@[i].0@ != pairs@[j].0@
                    &&& forall|i: int|
                        0 <= i < pairs@.len() ==> #[trigger] m.contains_pair(
                            pairs@[i].0@,
                            pairs@[i].1@,
                        )
                    &&& forall|k: Seq<char>|
                        m.dom().contains(k) ==> exists|i: int|
                            0 <= i < pairs@.len() && #[trigger] pairs@[i].0@ == k
                },
                (None, None) => true,
                _ => false,
            },
    {
        let caps = match self.re.captures(line) {
            Some(caps) => caps,
            None => return None,
        };
        let mut out: Vec<(String, String)> = Vec::new();
        for name in self.re.capture_names().flatten() {
            if let Some(m) = caps.name(name) {
                out.push((name.to_string(), m.as_str().to_string()));
            }
        }
        Some(out)
    }

    /// Relies on regex::Regex::is_match: whether the pattern matches
    /// somewhere in `s`; the outcome depends on the characters alone.
    #[verifier::external_body]
    pub(crate) fn is_match(&self, s: &str) -> (r: bool)
        ensures
            r == regex_is_match(self@, s@),
    {
        self.re.is_match(s)
    }
}

/// The Pattern-Capture extractor: matches each trimmed line of its source
/// against a pattern and turns the named capture groups that participated
/// into fields. A group that did not participate yields no field, rather
/// than an empty one.
#[derive(Debug)]
pub struct RegexReader {
    re: Pattern,
    capture_names: Vec<String>,
    source: Source,
}

impl RegexReader {
    pub closed spec fn pattern_view(self) -> Seq<char> {
        self.re@
    }

    pub closed spec fn position_spec(self) -> int {
        self.source.position_spec()
    }

    pub closed spec fn capture_names_view(self) -> Seq<Seq<char>> {
        self.capture_names.deep_view()
    }

    pub fn new(re: Pattern, source: Source) -> (r: Self)
        ensures
            r.pattern_view() == re@,
            r.source_type_spec() == source.source_type_spec(),
            r.position_spec() == source.position_spec(),
            r.capture_names_view() == regex_group_names(re@),
    {
        let capture_names = re.group_names();
        RegexReader { re, capture_names, source }
    }

    /// The named capture groups of the bound pattern, in group order.
    pub fn capture_names(&self) -> (r: &Vec<String>)
        ensures
            r.deep_view() == self.capture_names_view(),
    {
        &self.capture_names
    }
}

impl Reader for RegexReader {
    closed spec fn source_type_spec(&self) -> SourceType {
        self.source.source_type_spec()
    }

    open spec fn read_ens(pre: Self, post: Self, data: Option<Seq<char>>, r: Result<
        Record,
        ReadError,
    >) -> bool {
        &&& post.source_type_spec() == pre.source_type_spec()
        &&& post.pattern_view() == pre.pattern_view()
        &&& post.capture_names_view() == pre.capture_names_view()
        &&& match data {
            None => r matches Err(ReadError::Eof) && post.position_spec() == pre.position_spec(),
            Some(d) => {
                let p = pre.position_spec();
                if p >= d.len() {
                    r matches Err(ReadError::Eof) && post.position_spec() == pre.position_spec()
                } else {
                    let t = text::trim_spec(line_at(d, p));
                    &&& post.position_spec() == next_pos(d, p)
                    &&& match regex_captures(pre.pattern_view(), t) {
                        Some(m) => r matches Ok(rec) && rec.wf() && rec@ == m,
                        None => r matches Err(ReadError::ParseFail(_)),
                    }
                }
            },
        }
    }

    fn source_type(&self) -> (r: SourceType) {
        self.source.source_type()
    }

    fn read_fields(&mut self, data: Option<&str>) -> (r: Result<Record, ReadError>) {
        let line = match self.source.read_line(data) {
            Some(l) => l,
            None => {
                return Err(ReadError::Eof);
            },
        };
        let t = text::trim(line.as_str());
        let pairs = match self.re.captures_pairs(t.as_str()) {
            None => {
                return Err(ReadError::ParseFail("regex doesn't match".to_owned()));
            },
            Some(pairs) => pairs,
        };
        let ghost m = regex_captures(self.pattern_view(), t@)->Some_0;
        let ghost none_kept: Seq<Seq<char>> = Seq::empty();
        let mut rec = Record::new();
        let mut i: usize = 0;
        proof {
            assert(rec@ =~= selected_upto(m, pairs@, 0, none_kept, false, none_kept));
        }
        while i < pairs.len()
            invariant
                0 <= i <= pairs@.len(),
                rec.wf(),
                none_kept == Seq::<Seq<char>>::empty(),
                forall|p: int, q: int| 0 <= p < q < pairs@.len() ==> pairs@[p].0@ != pairs@[q].0@,
                forall|j: int|
                    0 <= j < pairs@.len() ==> #[trigger] m.contains_pair(
                        pairs@[j].0@,
                        pairs@[j].1@,
                    ),
                rec@ == selected_upto(m, pairs@, i as int, none_kept, false, none_kept),
            decreases pairs@.len() - i,
        {
            let k = pairs[i].0.clone();
            let v = pairs[i].1.clone();
            rec.insert(Field { name: k, value: v });
            proof {
                lemma_selected_upto_step(m, pairs@, i as int, none_kept, false, none_kept);
                assert(key_selected(pairs@[i as int].0@, none_kept, false, none_kept));
                assert(rec@ =~= selected_upto(m, pairs@, i as int + 1, none_kept, false, none_kept));
            }
            i += 1;
        }
        proof {
            let fin = selected_upto(m, pairs@, pairs@.len() as int, none_kept, false, none_kept);
            let sel = selected(m, none_kept, false, none_kept);
            assert forall|k: Seq<char>| #[trigger] fin.dom().contains(k) implies sel.dom().contains(
                k,
            ) by {
                let j = choose|j: int| 0 <= j < pairs@.len() && #[trigger] pairs@[j].0@ == k;
                assert(m.contains_pair(pairs@[j].0@, pairs@[j].1@));
            }
            assert forall|k: Seq<char>| #[trigger] sel.dom().contains(k) implies fin.dom().contains(
                k,
            ) by {
                let j = choose|j: int| 0 <= j < pairs@.len() && #[trigger] pairs@[j].0@ == k;
                assert(pairs@[j].0@ == k);
            }
            assert(rec@ =~= sel);
            lemma_no_selection_keeps_all(m);
        }
        Ok(rec)
    }
}

} // verus!
