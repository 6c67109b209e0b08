use vstd::prelude::*;

verus! {

/// A field as plain sequences: its name and its value.
pub type FieldView = (Seq<char>, Seq<char>);

pub open spec fn field_view(f: (String, String)) -> FieldView {
    (f.0@, f.1@)
}

pub open spec fn fields_view(fields: Seq<(String, String)>) -> Seq<FieldView> {
    fields.map_values(|f: (String, String)| field_view(f))
}

/// No two fields share a name.
pub open spec fn keys_unique(fields: Seq<FieldView>) -> bool {
    forall|i: int, j: int|
        0 <= i < fields.len() && 0 <= j < fields.len() && i != j ==> fields[i].0 != fields[j].0
}

/// The map that a list of fields stands for; a later field wins over an earlier one.
pub open spec fn to_map(fields: Seq<FieldView>) -> Map<Seq<char>, Seq<char>>
    decreases fields.len(),
{
    if fields.len() == 0 {
        Map::empty()
    } else {
        to_map(fields.drop_last()).insert(fields.last().0, fields.last().1)
    }
}

pub proof fn lemma_to_map_push(fields: Seq<FieldView>, f: FieldView)
    ensures
        to_map(fields.push(f)) == to_map(fields).insert(f.0, f.1),
{
    assert(fields.push(f).drop_last() =~= fields);
}

pub proof fn lemma_to_map_contains(fields: Seq<FieldView>, key: Seq<char>)
    ensures
        to_map(fields).contains_key(key) <==> exists|i: int|
            0 <= i < fields.len() && #[trigger] fields[i].0 == key,
    decreases fields.len(),
{
    if fields.len() > 0 {
        let d = fields.drop_last();
        lemma_to_map_contains(d, key);
        if to_map(fields).contains_key(key) && fields.last().0 != key {
            let i = choose|i: int| 0 <= i < d.len() && #[trigger] d[i].0 == key;
            assert(fields[i].0 == key);
        }
        if exists|i: int| 0 <= i < fields.len() && #[trigger] fields[i].0 == key {
            let i = choose|i: int| 0 <= i < fields.len() && #[trigger] fields[i].0 == key;
            if i < d.len() {
                assert(d[i].0 == key);
            }
        }
    }
}

pub proof fn lemma_to_map_value(fields: Seq<FieldView>, i: int)
    requires
        keys_unique(fields),
        0 <= i < fields.len(),
    ensures
        to_map(fields).contains_key(fields[i].0),
        to_map(fields)[fields[i].0] == fields[i].1,
    decreases fields.len(),
{
    let d = fields.drop_last();
    if i < d.len() {
        assert(d[i] == fields[i]);
        lemma_to_map_value(d, i);
    }
}

pub proof fn lemma_to_map_update(fields: Seq<FieldView>, i: int, v: Seq<char>)
    requires
        keys_unique(fields),
        0 <= i < fields.len(),
    ensures
        to_map(fields.update(i, (fields[i].0, v))) =~= to_map(fields).insert(fields[i].0, v),
    decreases fields.len(),
{
    let k = fields[i].0;
    let u = fields.update(i, (k, v));
    let d = fields.drop_last();
    if i == fields.len() - 1 {
        assert(u.drop_last() =~= d);
    } else {
        assert(u.drop_last() =~= d.update(i, (k, v)));
        assert(d[i] == fields[i]);
        lemma_to_map_update(d, i, v);
        assert(fields.last().0 != k);
    }
}

pub proof fn lemma_to_map_len(fields: Seq<FieldView>)
    requires
        keys_unique(fields),
    ensures
        to_map(fields).dom().finite(),
        to_map(fields).len() == fields.len(),
    decreases fields.len(),
{
    if fields.len() > 0 {
        let d = fields.drop_last();
        lemma_to_map_len(d);
        lemma_to_map_contains(d, fields.last().0);
        if to_map(d).contains_key(fields.last().0) {
            let j = choose|j: int| 0 <= j < d.len() && #[trigger] d[j].0 == fields.last().0;
            assert(fields[j].0 == fields[fields.len() - 1].0);
        }
    }
}

/// One extracted or enriched record: a map from field names to values.
#[derive(Debug)]
pub struct Record {
    fields: Vec<(String, String)>,
}

impl View for Record {
    type V = Map<Seq<char>, Seq<char>>;

    closed spec fn view(&self) -> Map<Seq<char>, Seq<char>> {
        to_map(fields_view(self.fields@))
    }
}

impl Record {
    /// Well-formed: no two fields share a name.
    pub closed spec fn wf(&self) -> bool {
        keys_unique(fields_view(self.fields@))
    }

    /// An empty record.
    pub fn new() -> (r: Record)
        ensures
            r.wf(),
            r@ == Map::<Seq<char>, Seq<char>>::empty(),
    {
        let r = Record { fields: Vec::new() };
        assert(fields_view(r.fields@) =~= Seq::<FieldView>::empty());
        r
    }

    /// The position of the field named `key`, if there is one.
    fn position(&self, key: &String) -> (r: Option<usize>)
        ensures
            match r {
                Some(i) => i < self.fields@.len() && self.fields@[i as int].0@ == key@,
                None => !self@.contains_key(key@),
            },
    {
        proof {
            lemma_to_map_contains(fields_view(self.fields@), key@);
        }
        let mut i: usize = 0;
        while i < self.fields.len()
            invariant
                0 <= i <= self.fields@.len(),
                forall|j: int| 0 <= j < i ==> self.fields@[j].0@ != key@,
            decreases self.fields@.len() - i,
        {
            if self.fields[i].0 == *key {
                return Some(i);
            }
            i = i + 1;
        }
        proof {
            let fv = fields_view(self.fields@);
            assert forall|j: int| 0 <= j < fv.len() implies #[trigger] fv[j].0 != key@ by {
                assert(fv[j] == field_view(self.fields@[j]));
            }
        }
        None
    }

    /// The value of the field named `key`, if the record has one.
    pub fn get(&self, key: &str) -> (r: Option<String>)
        requires
            self.wf(),
        ensures
            match r {
                Some(v) => self@.contains_key(key@) && v@ == self@[key@],
                None => !self@.contains_key(key@),
            },
    {
        let k = key.to_owned();
        match self.position(&k) {
            Some(i) => {
                proof {
                    let fv = fields_view(self.fields@);
                    assert(fv[i as int] == field_view(self.fields@[i as int]));
                    lemma_to_map_value(fv, i as int);
                }
                Some(self.fields[i].1.clone())
            },
            None => None,
        }
    }

    /// Whether the record has a field named `key`.
    pub fn contains_key(&self, key: &str) -> (r: bool)
        requires
            self.wf(),
        ensures
            r == self@.contains_key(key@),
    {
        let k = key.to_owned();
        let p = self.position(&k);
        proof {
            if p.is_some() {
                let i = p.unwrap() as int;
                let fv = fields_view(self.fields@);
                assert(fv[i] == field_view(self.fields@[i]));
                lemma_to_map_value(fv, i);
            }
        }
        p.is_some()
    }

    /// Sets the field `key` to `value`, replacing the value it had.
    pub fn insert(&mut self, key: String, value: String)
        requires
            old(self).wf(),
        ensures
            final(self).wf(),
            final(self)@ == old(self)@.insert(key@, value@),
    {
        let p = self.position(&key);
        let ghost fv0 = fields_view(self.fields@);
        match p {
            Some(i) => {
                self.fields.set(i, (key, value));
                proof {
                    assert(fv0[i as int] == field_view(old(self).fields@[i as int]));
                    assert(fields_view(self.fields@) =~= fv0.update(i as int, (fv0[i as int].0, value@)));
                    lemma_to_map_update(fv0, i as int, value@);
                }
            },
            None => {
                proof {
                    lemma_to_map_contains(fv0, key@);
                    lemma_to_map_push(fv0, (key@, value@));
                }
                self.fields.push((key, value));
                proof {
                    assert(fields_view(self.fields@) =~= fv0.push((key@, value@)));
                    assert forall|j: int| 0 <= j < fv0.len() implies #[trigger] fv0[j].0 != key@ by {
                        if fv0[j].0 == key@ {
                            assert(to_map(fv0).contains_key(key@));
                        }
                    }
                }
            },
        }
    }

    /// The number of fields.
    pub fn len(&self) -> (r: usize)
        requires
            self.wf(),
        ensures
            r == self@.len(),
            self@.dom().finite(),
    {
        proof {
            lemma_to_map_len(fields_view(self.fields@));
        }
        self.fields.len()
    }

    /// Whether the record has no field.
    pub fn is_empty(&self) -> (r: bool)
        requires
            self.wf(),
        ensures
            r == (self@.len() == 0),
            self@.dom().finite(),
    {
        self.len() == 0
    }

    /// The fields as name and value pairs, each name once.
    pub fn entries(&self) -> (r: Vec<(String, String)>)
        requires
            self.wf(),
        ensures
            keys_unique(fields_view(r@)),
            to_map(fields_view(r@)) == self@,
    {
        let mut out: Vec<(String, String)> = Vec::new();
        let mut i: usize = 0;
        while i < self.fields.len()
            invariant
                0 <= i <= self.fields@.len(),
                fields_view(out@) =~= fields_view(self.fields@).subrange(0, i as int),
            decreases self.fields@.len() - i,
        {
            let k = self.fields[i].0.clone();
            let v = self.fields[i].1.clone();
            let ghost prev = out@;
            out.push((k, v));
            proof {
                assert(fields_view(out@) =~= fields_view(prev).push(field_view(self.fields@[i as int])));
                assert(fields_view(self.fields@).subrange(0, i + 1) =~= fields_view(self.fields@).subrange(0, i as int).push(field_view(self.fields@[i as int])));
            }
            i = i + 1;
        }
        assert(fields_view(self.fields@).subrange(0, self.fields@.len() as int) =~= fields_view(self.fields@));
        out
    }
}

/// An owned copy of a record.
pub fn copy_record(r: &Record) -> (c: Record)
    requires
        r.wf(),
    ensures
        c.wf(),
        c@ == r@,
{
    let entries = r.entries();
    let mut c = Record::new();
    let mut i: usize = 0;
    while i < entries.len()
        invariant
            0 <= i <= entries@.len(),
            keys_unique(fields_view(entries@)),
            c.wf(),
            c@ == to_map(fields_view(entries@).subrange(0, i as int)),
        decreases entries@.len() - i,
    {
        let k = entries[i].0.clone();
        let v = entries[i].1.clone();
        proof {
            let fv = fields_view(entries@);
            assert(fv.subrange(0, i + 1) =~= fv.subrange(0, i as int).push(fv[i as int]));
            lemma_to_map_push(fv.subrange(0, i as int), fv[i as int]);
        }
        c.insert(k, v);
        i = i + 1;
    }
    assert(fields_view(entries@).subrange(0, entries@.len() as int) =~= fields_view(entries@));
    c
}

} // verus!
