use vstd::prelude::*;
use vstd::string::StrSliceExecFns;

use crate::config::Exclude;
use crate::config::Include;
use crate::field::Field;
use crate::field::Record;
use crate::reader::ReadError;
use crate::reader::Reader;
use crate::source::line_at;
use crate::source::next_pos;
use crate::source::Source;
use crate::source::SourceType;
use crate::text;

verus! {

/// How a line of text parses as JSON: `Ok` maps each top-level key of the
/// object to the compact textual form of its value; `Err(true)` means the
/// text is not valid JSON at all; `Err(false)` means it is valid JSON but
/// not an object. A function of the characters alone.
pub uninterp spec fn json_object_entries(s: Seq<char>) -> Result<Map<Seq<char>, Seq<char>>, bool>;

/// Relies on serde_json::from_str, serde_json::Value::as_object and
/// serde_json::Value::to_string: parses one line as a JSON object and hands
/// out its top-level entries as pairs of key and compact textual value. On
/// failure, the flag says whether the text was not valid JSON (true) or a
/// valid non-object (false), beside a diagnostic.
#[verifier::external_body]
fn parse_object_entries(line: &str) -> (r: Result<Vec<(String, String)>, (bool, String)>)
    ensures
        match (r, json_object_entries(line@)) {
            (Ok(pairs), Ok(m)) => {
                &&& m.dom().finite()
                &&& pairs@.len() == m.dom().len()
                &&& forall|i: int, j: int|
                    0 <= i < j < pairs@.len() ==> pairs@[i].0@ != pairs@[j].0@
                &&& forall|i: int|
                    0 <= i < pairs@.len() ==> #[trigger] m.contains_pair(
                        pairs@[i].0@,
                        pairs@[i].1@,
                    )
                &&& forall|k: Seq<char>|
                    m.dom().contains(k) ==> exists|i: int|
                        0 <= i < pairs@.len() && #[trigger] pairs@[i].0@ == k
            },
            (Err((not_json, _)), Err(b)) => not_json == b,
            _ => false,
        },
{
    match serde_json::from_str::<serde_json::Value>(line) {
        Err(e) => Err((true, e.to_string())),
        Ok(v) => match v.as_object() {
            None => Err((false, String::new())),
            Some(obj) => Ok(obj.iter().map(|(k, v)| (k.clone(), v.to_string())).collect()),
        },
    }
}

/// Whether field selection keeps a key: a non-empty keep list keeps
/// exactly the listed keys; otherwise the exclude-all sentinel drops every
/// key; otherwise the excluded keys are dropped.
pub open spec fn key_selected(
    k: Seq<char>,
    kept: Seq<Seq<char>>,
    exclude_all: bool,
    exclude: Seq<Seq<char>>,
) -> bool {
    if kept.len() > 0 {
        kept.contains(k)
    } else if exclude_all {
        false
    } else {
        !exclude.contains(k)
    }
}

/// The entries of `m` whose keys field selection keeps.
pub open spec fn selected(
    m: Map<Seq<char>, Seq<char>>,
    kept: Seq<Seq<char>>,
    exclude_all: bool,
    exclude: Seq<Seq<char>>,
) -> Map<Seq<char>, Seq<char>> {
    Map::new(
        |k: Seq<char>| m.dom().contains(k) && key_selected(k, kept, exclude_all, exclude),
        |k: Seq<char>| m[k],
    )
}

/// With no keep list, no exclude list and no sentinel, selection keeps
/// every entry: a well-formed object line of N keys yields a record of
/// exactly those N fields.
pub proof fn lemma_no_selection_keeps_all(m: Map<Seq<char>, Seq<char>>)
    ensures
        selected(m, Seq::empty(), false, Seq::empty()) == m,
{
    assert(selected(m, Seq::empty(), false, Seq::empty()) =~= m);
}

/// The exclude-all sentinel yields the empty record, whatever the line held.
pub proof fn lemma_exclude_all_keeps_none(m: Map<Seq<char>, Seq<char>>, kept: Seq<Seq<char>>)
    requires
        kept.len() == 0,
    ensures
        selected(m, kept, true, Seq::empty()) == Map::<Seq<char>, Seq<char>>::empty(),
{
    assert(selected(m, kept, true, Seq::empty()) =~= Map::<Seq<char>, Seq<char>>::empty());
}

/// Whether a format's field selection drops every field: its exclude entry
/// is the sentinel.
pub open spec fn fields_exclude_all(fields: crate::config::Fields) -> bool {
    match fields.exclude {
        Some(e) => spec_exclude_parts(e).0,
        None => false,
    }
}

/// The field names a format's selection drops.
pub open spec fn fields_exclude_list(fields: crate::config::Fields) -> Seq<Seq<char>> {
    match fields.exclude {
        Some(e) => spec_exclude_parts(e).1,
        None => Seq::empty(),
    }
}

/// The field names a format's selection keeps.
pub open spec fn fields_keep_list(fields: crate::config::Fields) -> Seq<Seq<char>> {
    match fields.keep {
        Some(k) => spec_keep_list(k),
        None => Seq::empty(),
    }
}

/// The Structured-Object extractor: parses each line of its source as one
/// JSON object and turns the top-level entries into fields, subject to
/// keep/exclude selection.
#[derive(Debug)]
pub struct JsonReader {
    source: Source,
    exclude_all: bool,
    exclude: Vec<String>,
    kept: Vec<String>,
}

/// How an `Exclude` is read: the single name "all" is the sentinel that
/// drops every field; otherwise the named fields are dropped.
pub open spec fn spec_exclude_parts(exclude: Exclude) -> (bool, Seq<Seq<char>>) {
    match exclude {
        Exclude::ExcludeOne(one) => if one@ == "all"@ {
            (true, Seq::empty())
        } else {
            (false, seq![one@])
        },
        Exclude::ExcludeMany(many) => (false, many.deep_view()),
    }
}

/// How an `Include` is read: the names of the fields to keep.
pub open spec fn spec_keep_list(keep: Include) -> Seq<Seq<char>> {
    match keep {
        Include::IncludeOne(one) => seq![one@],
        Include::IncludeMany(many) => many.deep_view(),
    }
}

impl JsonReader {
    pub closed spec fn position_spec(self) -> int {
        self.source.position_spec()
    }

    pub closed spec fn keep_view(self) -> Seq<Seq<char>> {
        self.kept.deep_view()
    }

    pub closed spec fn exclude_view(self) -> Seq<Seq<char>> {
        self.exclude.deep_view()
    }

    pub closed spec fn excludes_all(self) -> bool {
        self.exclude_all
    }

    pub fn new(source: Source, exclude: Exclude, keep: Include) -> (r: Self)
        ensures
            r.source_type_spec() == source.source_type_spec(),
            r.position_spec() == source.position_spec(),
            r.excludes_all() == spec_exclude_parts(exclude).0,
            r.exclude_view() == spec_exclude_parts(exclude).1,
            r.keep_view() == spec_keep_list(keep),
    {
        let mut exclude_all = false;
        let exclude_list: Vec<String> = match exclude {
            Exclude::ExcludeOne(one) => {
                if text::str_eq(one.as_str(), "all") {
                    exclude_all = true;
                    let v: Vec<String> = Vec::new();
                    proof {
                        assert(v.deep_view() =~= Seq::<Seq<char>>::empty());
                    }
                    v
                } else {
                    let mut v: Vec<String> = Vec::new();
                    v.push(one);
                    proof {
                        assert(v.deep_view() =~= seq![v@[0]@]);
                    }
                    v
                }
            },
            Exclude::ExcludeMany(many) => many,
        };
        let keep_list: Vec<String> = match keep {
            Include::IncludeOne(one) => {
                let mut v: Vec<String> = Vec::new();
                v.push(one);
                proof {
                    assert(v.deep_view() =~= seq![v@[0]@]);
                }
                v
            },
            Include::IncludeMany(many) => many,
        };
        JsonReader { source, exclude_all, exclude: exclude_list, kept: keep_list }
    }
}

impl Reader for JsonReader {
    closed spec fn source_type_spec(&self) -> SourceType {
        self.source.source_type_spec()
    }

    open spec fn read_ens(pre: Self, post: Self, data: Option<Seq<char>>, r: Result<
        Record,
        ReadError,
    >) -> bool {
        &&& post.source_type_spec() == pre.source_type_spec()
        &&& post.keep_view() == pre.keep_view()
        &&& post.exclude_view() == pre.exclude_view()
        &&& post.excludes_all() == pre.excludes_all()
        &&& match data {
            None => r matches Err(ReadError::Eof) && post.position_spec() == pre.position_spec(),
            Some(d) => {
                let p = pre.position_spec();
                if p >= d.len() {
                    r matches Err(ReadError::Eof) && post.position_spec() == pre.position_spec()
                } else {
                    let t = text::trim_spec(line_at(d, p));
                    &&& post.position_spec() == next_pos(d, p)
                    &&& if t.len() == 0 || t[0] != '{' {
                        r matches Err(ReadError::ParseFail(_))
                    } else {
                        match json_object_entries(t) {
                            Ok(m) => r matches Ok(rec) && rec.wf() && rec@ == selected(
                                m,
                                pre.keep_view(),
                                pre.excludes_all(),
                                pre.exclude_view(),
                            ),
                            Err(true) => r matches Err(ReadError::ParseFail(_)),
                            Err(false) => r matches Err(ReadError::Internal(_)),
                        }
                    }
                }
            },
        }
    }

    fn source_type(&self) -> (r: SourceType) {
        self.source.source_type()
    }

    fn read_fields(&mut self, data: Option<&str>) -> (r: Result<Record, ReadError>) {
        let line = match self.source.read_line(data) {
            Some(l) => l,
            None => {
                return Err(ReadError::Eof);
            },
        };
        let t = text::trim(line.as_str());
        let ts = t.as_str();
        if ts.unicode_len() == 0 {
            return Err(
                ReadError::ParseFail("couldn't access the first character. input is probably empty".to_owned()),
            );
        }
        if ts.get_char(0) != '{' {
            return Err(ReadError::ParseFail("first character was not '{'".to_owned()));
        }
        let pairs = match parse_object_entries(ts) {
            Err(e) => {
                if e.0 {
                    return Err(ReadError::ParseFail(e.1));
                } else {
                    return Err(ReadError::Internal("json.as_object failed".to_owned()));
                }
            },
            Ok(pairs) => pairs,
        };
        let ghost m = json_object_entries(t@)->Ok_0;
        let ghost inc = self.keep_view();
        let ghost exa = self.excludes_all();
        let ghost exc = self.exclude_view();
        let mut rec = Record::new();
        let mut i: usize = 0;
        proof {
            assert(rec@ =~= selected_upto(m, pairs@, 0, inc, exa, exc));
        }
        while i < pairs.len()
            invariant
                0 <= i <= pairs@.len(),
                rec.wf(),
                inc == self.keep_view(),
                exa == self.excludes_all(),
                exc == self.exclude_view(),
                forall|p: int, q: int| 0 <= p < q < pairs@.len() ==> pairs@[p].0@ != pairs@[q].0@,
                forall|j: int|
                    0 <= j < pairs@.len() ==> #[trigger] m.contains_pair(
                        pairs@[j].0@,
                        pairs@[j].1@,
                    ),
                rec@ == selected_upto(m, pairs@, i as int, inc, exa, exc),
            decreases pairs@.len() - i,
        {
            let k = pairs[i].0.clone();
            let v = pairs[i].1.clone();
            let keep = if self.kept.len() > 0 {
                text::contains_str(&self.kept, k.as_str())
            } else if self.exclude_all {
                false
            } else {
                !text::contains_str(&self.exclude, k.as_str())
            };
            proof {
                lemma_deep_view_contains(self.kept, k@);
                lemma_deep_view_contains(self.exclude, k@);
                assert(keep == key_selected(k@, inc, exa, exc));
            }
            let ghost prev = rec@;
            if keep {
                rec.insert(Field { name: k, value: v });
            }
            proof {
                lemma_selected_upto_step(m, pairs@, i as int, inc, exa, exc);
                if keep {
                    assert(rec@ =~= selected_upto(m, pairs@, i as int + 1, inc, exa, exc));
                } else {
                    assert(rec@ =~= selected_upto(m, pairs@, i as int + 1, inc, exa, exc));
                }
            }
            i += 1;
        }
        proof {
            let fin = selected_upto(m, pairs@, pairs@.len() as int, inc, exa, exc);
            let sel = selected(m, inc, exa, exc);
            assert forall|k: Seq<char>| #[trigger] fin.dom().contains(k) implies sel.dom().contains(
                k,
            ) by {
                let j = choose|j: int| 0 <= j < pairs@.len() && #[trigger] pairs@[j].0@ == k;
                assert(m.contains_pair(pairs@[j].0@, pairs@[j].1@));
            }
            assert forall|k: Seq<char>| #[trigger] sel.dom().contains(k) implies fin.dom().contains(
                k,
            ) by {
                let j = choose|j: int| 0 <= j < pairs@.len() && #[trigger] pairs@[j].0@ == k;
                assert(pairs@[j].0@ == k);
            }
            assert(rec@ =~= sel);
        }
        Ok(rec)
    }
}

/// The part of the selection already built after the first `upto` pairs.
pub open spec fn selected_upto(
    m: Map<Seq<char>, Seq<char>>,
    pairs: Seq<(String, String)>,
    upto: int,
    kept: Seq<Seq<char>>,
    exclude_all: bool,
    exclude: Seq<Seq<char>>,
) -> Map<Seq<char>, Seq<char>> {
    Map::new(
        |k: Seq<char>| (exists|j: int| 0 <= j < upto && #[trigger] pairs[j].0@ == k)
            && key_selected(k, kept, exclude_all, exclude),
        |k: Seq<char>| m[k],
    )
}

pub(crate) proof fn lemma_selected_upto_step(
    m: Map<Seq<char>, Seq<char>>,
    pairs: Seq<(String, String)>,
    i: int,
    kept: Seq<Seq<char>>,
    exclude_all: bool,
    exclude: Seq<Seq<char>>,
)
    requires
        0 <= i < pairs.len(),
        forall|j: int|
            0 <= j < pairs.len() ==> #[trigger] m.contains_pair(pairs[j].0@, pairs[j].1@),
    ensures
        key_selected(pairs[i].0@, kept, exclude_all, exclude) ==> selected_upto(
            m,
            pairs,
            i + 1,
            kept,
            exclude_all,
            exclude,
        ) == selected_upto(m, pairs, i, kept, exclude_all, exclude).insert(
            pairs[i].0@,
            pairs[i].1@,
        ),
        !key_selected(pairs[i].0@, kept, exclude_all, exclude) ==> selected_upto(
            m,
            pairs,
            i + 1,
            kept,
            exclude_all,
            exclude,
        ) == selected_upto(m, pairs, i, kept, exclude_all, exclude),
{
    let pre = selected_upto(m, pairs, i, kept, exclude_all, exclude);
    let post = selected_upto(m, pairs, i + 1, kept, exclude_all, exclude);
    assert(m.contains_pair(pairs[i].0@, pairs[i].1@));
    if key_selected(pairs[i].0@, kept, exclude_all, exclude) {
        assert forall|k: Seq<char>| post.dom().contains(k) implies pre.insert(
            pairs[i].0@,
            pairs[i].1@,
        ).dom().contains(k) by {
            let j = choose|j: int| 0 <= j < i + 1 && #[trigger] pairs[j].0@ == k;
            if j < i {
                assert(pre.dom().contains(k));
            }
        }
        assert forall|k: Seq<char>| pre.insert(pairs[i].0@, pairs[i].1@).dom().contains(k)
            implies post.dom().contains(k) by {
            if k == pairs[i].0@ {
                assert(pairs[i].0@ == k);
            } else {
                let j = choose|j: int| 0 <= j < i && #[trigger] pairs[j].0@ == k;
                assert(pairs[j].0@ == k);
            }
        }
        assert(post =~= pre.insert(pairs[i].0@, pairs[i].1@));
    } else {
        assert forall|k: Seq<char>| post.dom().contains(k) implies pre.dom().contains(k) by {
            let j = choose|j: int| 0 <= j < i + 1 && #[trigger] pairs[j].0@ == k;
            assert(j < i);
        }
        assert(post =~= pre);
    }
}

/// A vector of strings contains exactly the characters sequences its deep
/// view does.
proof fn lemma_deep_view_contains(v: Vec<String>, k: Seq<char>)
    ensures
        v.deep_view().contains(k) <==> exists|i: int| 0 <= i < v@.len() && #[trigger] v@[i]@ == k,
        v.deep_view().len() == v@.len(),
{
    if v.deep_view().contains(k) {
        let i = choose|i: int| 0 <= i < v.deep_view().len() && v.deep_view()[i] == k;
        assert(v@[i]@ == k);
    }
    if exists|i: int| 0 <= i < v@.len() && #[trigger] v@[i]@ == k {
        let i = choose|i: int| 0 <= i < v@.len() && #[trigger] v@[i]@ == k;
        assert(v.deep_view()[i] == k);
    }
}

} // verus!
