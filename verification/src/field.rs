use vstd::prelude::*;

verus! {

/// One named value produced by parsing a line of input.
#[derive(Debug)]
pub struct Field {
    pub name: String,
    pub value: String,
}

/// The result of parsing one line: a mapping from field name to field value,
/// with each name present at most once. Insertion order is irrelevant to the
/// mapping a record denotes.
#[derive(Debug)]
pub struct Record {
    fields: Vec<Field>,
}

/// The mapping denoted by a sequence of fields; a later entry shadows an
/// earlier one with the same name.
pub open spec fn record_map(fields: Seq<Field>) -> Map<Seq<char>, Seq<char>>
    decreases fields.len(),
{
    if fields.len() == 0 {
        Map::empty()
    } else {
        record_map(fields.drop_last()).insert(fields.last().name@, fields.last().value@)
    }
}

pub proof fn lemma_record_map_dom(fields: Seq<Field>)
    ensures
        record_map(fields).dom().finite(),
        forall|k: Seq<char>|
            record_map(fields).dom().contains(k) <==> exists|i: int|
                0 <= i < fields.len() && fields[i].name@ == k,
    decreases fields.len(),
{
    if fields.len() > 0 {
        lemma_record_map_dom(fields.drop_last());
        assert forall|k: Seq<char>| record_map(fields).dom().contains(k) implies exists|i: int|
            0 <= i < fields.len() && fields[i].name@ == k by {
            if k == fields.last().name@ {
                assert(fields[fields.len() - 1].name@ == k);
            } else {
                let i = choose|i: int| 0 <= i < fields.drop_last().len() && fields.drop_last()[i].name@ == k;
                assert(fields[i].name@ == k);
            }
        }
        assert forall|k: Seq<char>|
            (exists|i: int| 0 <= i < fields.len() && fields[i].name@ == k) implies record_map(
            fields,
        ).dom().contains(k) by {
            let i = choose|i: int| 0 <= i < fields.len() && fields[i].name@ == k;
            if i < fields.len() - 1 {
                assert(fields.drop_last()[i].name@ == k);
            }
        }
    }
}

pub proof fn lemma_record_map_value(fields: Seq<Field>, i: int)
    requires
        0 <= i < fields.len(),
        forall|p: int, q: int|
            0 <= p < q < fields.len() ==> fields[p].name@ != fields[q].name@,
    ensures
        record_map(fields).contains_key(fields[i].name@),
        record_map(fields)[fields[i].name@] == fields[i].value@,
    decreases fields.len(),
{
    lemma_record_map_dom(fields);
    if i < fields.len() - 1 {
        lemma_record_map_value(fields.drop_last(), i);
        assert(fields.drop_last()[i] == fields[i]);
        assert(fields[i].name@ != fields.last().name@);
    }
}

pub proof fn lemma_record_map_len(fields: Seq<Field>)
    requires
        forall|p: int, q: int|
            0 <= p < q < fields.len() ==> fields[p].name@ != fields[q].name@,
    ensures
        record_map(fields).dom().len() == fields.len(),
    decreases fields.len(),
{
    if fields.len() > 0 {
        lemma_record_map_len(fields.drop_last());
        lemma_record_map_dom(fields.drop_last());
        assert(!record_map(fields.drop_last()).dom().contains(fields.last().name@));
        assert(record_map(fields).dom() =~= record_map(fields.drop_last()).dom().insert(
            fields.last().name@,
        ));
    }
}

impl View for Record {
    type V = Map<Seq<char>, Seq<char>>;

    closed spec fn view(&self) -> Map<Seq<char>, Seq<char>> {
        record_map(self.fields@)
    }
}

impl Record {
    /// Field names are pairwise distinct.
    pub closed spec fn wf(self) -> bool {
        forall|i: int, j: int|
            0 <= i < j < self.fields@.len() ==> self.fields@[i].name@ != self.fields@[j].name@
    }

    pub fn new() -> (r: Record)
        ensures
            r.wf(),
            r@ == Map::<Seq<char>, Seq<char>>::empty(),
    {
        Record { fields: Vec::new() }
    }

    /// Add a field; an existing field of the same name is replaced.
    pub fn insert(&mut self, field: Field)
        requires
            old(self).wf(),
        ensures
            final(self).wf(),
            final(self)@ == old(self)@.insert(field.name@, field.value@),
    {
        let mut i: usize = 0;
        while i < self.fields.len()
            invariant
                0 <= i <= self.fields@.len(),
                old(self).wf(),
                self.fields@ == old(self).fields@,
                forall|j: int| 0 <= j < i ==> self.fields@[j].name@ != field.name@,
            decreases self.fields@.len() - i,
        {
            if crate::text::str_eq(self.fields[i].name.as_str(), field.name.as_str()) {
                let ghost pre = self.fields@;
                proof {
                    assert(forall|p: int, q: int|
                        0 <= p < q < pre.len() ==> pre[p].name@ != pre[q].name@);
                }
                self.fields.set(i, field);
                proof {
                    lemma_replace_at(pre, self.fields@, i as int);
                    assert(forall|j: int|
                        0 <= j < self.fields@.len() ==> self.fields@[j].name@ == pre[j].name@);
                }
                return ;
            }
            i += 1;
        }
        let ghost pre = self.fields@;
        self.fields.push(field);
        proof {
            assert(self.fields@.drop_last() =~= pre);
        }
    }

    /// Look a field up by name.
    pub fn get(&self, name: &str) -> (r: Option<&Field>)
        requires
            self.wf(),
        ensures
            match r {
                Some(f) => self@.contains_key(name@) && f.name@ == name@ && f.value@
                    == self@[name@],
                None => !self@.contains_key(name@),
            },
    {
        proof {
            lemma_record_map_dom(self.fields@);
        }
        let mut i: usize = 0;
        while i < self.fields.len()
            invariant
                0 <= i <= self.fields@.len(),
                self.wf(),
                forall|j: int| 0 <= j < i ==> self.fields@[j].name@ != name@,
            decreases self.fields@.len() - i,
        {
            if crate::text::str_eq(self.fields[i].name.as_str(), name) {
                proof {
                    lemma_record_map_value(self.fields@, i as int);
                }
                return Some(&self.fields[i]);
            }
            i += 1;
        }
        None
    }

    /// The number of fields held.
    pub fn len(&self) -> (r: usize)
        requires
            self.wf(),
        ensures
            r == self@.dom().len(),
    {
        proof {
            lemma_record_map_len(self.fields@);
        }
        self.fields.len()
    }

    /// The fields in the order they were first inserted.
    pub fn fields(&self) -> (r: &Vec<Field>)
        ensures
            r@ == self.fields_seq(),
    {
        &self.fields
    }

    pub closed spec fn fields_seq(self) -> Seq<Field> {
        self.fields@
    }
}

proof fn lemma_replace_at(pre: Seq<Field>, post: Seq<Field>, i: int)
    requires
        0 <= i < pre.len(),
        post.len() == pre.len(),
        post[i].name@ == pre[i].name@,
        forall|j: int| 0 <= j < pre.len() && j != i ==> post[j] == pre[j],
        forall|p: int, q: int| 0 <= p < q < pre.len() ==> pre[p].name@ != pre[q].name@,
    ensures
        record_map(post) == record_map(pre).insert(post[i].name@, post[i].value@),
    decreases pre.len(),
{
    lemma_record_map_dom(pre);
    lemma_record_map_dom(post);
    if i == pre.len() - 1 {
        assert(pre.drop_last() =~= post.drop_last());
        assert(record_map(post) =~= record_map(pre).insert(post[i].name@, post[i].value@));
    } else {
        lemma_replace_at(pre.drop_last(), post.drop_last(), i);
        assert(post.drop_last()[i] == post[i]);
        assert(pre.drop_last()[i] == pre[i]);
        assert(post.last() == pre.last());
        assert(pre[i].name@ != pre.last().name@);
        assert(record_map(post) =~= record_map(pre).insert(post[i].name@, post[i].value@));
    }
}

} // verus!
