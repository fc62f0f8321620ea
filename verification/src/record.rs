use vstd::prelude::*;

verus! {

/// One named field of a bibliographic record, both sides plain text.
#[derive(Debug)]
pub struct Field {
    pub name: String,
    pub value: String,
}

/// Mathematical view of a [`Field`].
pub struct FieldView {
    pub name: Seq<char>,
    pub value: Seq<char>,
}

impl View for Field {
    type V = FieldView;

    open spec fn view(&self) -> FieldView {
        FieldView { name: self.name@, value: self.value@ }
    }
}

/// The view of an optional string field.
pub open spec fn opt_str_view(o: Option<String>) -> Option<Seq<char>> {
    match o {
        Option::Some(s) => Option::Some(s@),
        Option::None => Option::None,
    }
}

/// The views of a vector of fields.
pub open spec fn fields_view(v: Vec<Field>) -> Seq<FieldView> {
    Seq::new(v@.len(), |i: int| v@[i]@)
}

/// One bibliographic record.
///
/// `key` is the citation key, unique within a [`crate::Bibliography`].
/// `title` and `doi` are the two fields the duplicate rules read; either may be
/// absent. Every remaining field of the record is carried in `extra`, in a
/// canonical order chosen by the caller, so that two records are the same
/// publication entry exactly when all four components are equal.
#[derive(Debug)]
pub struct Record {
    pub key: String,
    pub title: Option<String>,
    pub doi: Option<String>,
    pub extra: Vec<Field>,
}

/// Mathematical view of a [`Record`].
#[verifier::ext_equal]
pub struct RecordView {
    pub key: Seq<char>,
    pub title: Option<Seq<char>>,
    pub doi: Option<Seq<char>>,
    pub extra: Seq<FieldView>,
}

impl View for Record {
    type V = RecordView;

    open spec fn view(&self) -> RecordView {
        RecordView {
            key: self.key@,
            title: opt_str_view(self.title),
            doi: opt_str_view(self.doi),
            extra: fields_view(self.extra),
        }
    }
}

/// The same record under another citation key.
pub open spec fn with_key(r: RecordView, k: Seq<char>) -> RecordView {
    RecordView { key: k, ..r }
}

fn eq_opt_string(a: &Option<String>, b: &Option<String>) -> (r: bool)
    ensures
        r == (opt_str_view(*a) == opt_str_view(*b)),
{
    match a {
        Option::Some(x) => match b {
            Option::Some(y) => *x == *y,
            Option::None => false,
        },
        Option::None => b.is_none(),
    }
}

fn eq_fields(a: &Vec<Field>, b: &Vec<Field>) -> (r: bool)
    ensures
        r == (fields_view(*a) == fields_view(*b)),
{
    let ghost av = fields_view(*a);
    let ghost bv = fields_view(*b);
    if a.len() != b.len() {
        assert(av != bv) by {
            assert(av.len() != bv.len());
        }
        return false;
    }
    let n = a.len();
    let mut i: usize = 0;
    while i < n
        invariant
            n == a@.len() == b@.len(),
            av == fields_view(*a),
            bv == fields_view(*b),
            i <= n,
            forall|j: int| 0 <= j < i ==> av[j] == bv[j],
        decreases n - i,
    {
        let fa = &a[i];
        let fb = &b[i];
        if !(fa.name == fb.name && fa.value == fb.value) {
            assert(av[i as int] != bv[i as int]);
            return false;
        }
        assert(av[i as int] == bv[i as int]);
        i += 1;
    }
    assert(av =~= bv);
    true
}

/// Field-set equality of two records: same key and the same value in every
/// field, not identity of references.
pub fn eq_record(a: &Record, b: &Record) -> (r: bool)
    ensures
        r == (a@ == b@),
{
    let keys_eq = a.key == b.key;
    let titles_eq = eq_opt_string(&a.title, &b.title);
    let dois_eq = eq_opt_string(&a.doi, &b.doi);
    let extras_eq = eq_fields(&a.extra, &b.extra);
    let r = keys_eq && titles_eq && dois_eq && extras_eq;
    proof {
        if r {
            assert(a@ =~= b@);
        } else {
            assert(a@ != b@);
        }
    }
    r
}

} // verus!
