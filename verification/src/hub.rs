//! The files of a model repository, as its listing has them.
use crate::json;
use crate::overrides;
use crate::text;
use vstd::prelude::*;

verus! {

/// An export in a repository.
#[derive(Debug, PartialEq, Eq)]
pub struct HubFile {
    /// Path inside the repository, such as `onnx/model_q4.onnx`.
    pub path: String,
    pub size: u64,
}

pub struct HubFileV {
    pub path: Seq<char>,
    pub size: u64,
}

impl View for HubFile {
    type V = HubFileV;

    open spec fn view(&self) -> HubFileV {
        HubFileV { path: self.path@, size: self.size }
    }
}

pub open spec fn files_v(v: Seq<HubFile>) -> Seq<HubFileV> {
    Seq::new(v.len(), |i: int| v[i]@)
}

/// What one item of a listing says: a path, and a size, where it has them.
#[derive(Debug, PartialEq, Eq)]
pub struct ListedFile {
    pub path: Option<String>,
    pub size: Option<u64>,
}

pub struct ListedV {
    pub path: Option<Seq<char>>,
    pub size: Option<u64>,
}

impl View for ListedFile {
    type V = ListedV;

    open spec fn view(&self) -> ListedV {
        ListedV {
            path: match self.path {
                Some(p) => Some(p@),
                None => None,
            },
            size: self.size,
        }
    }
}

pub open spec fn listed_v(v: Seq<ListedFile>) -> Seq<ListedV> {
    Seq::new(v.len(), |i: int| v[i]@)
}

// ---------------------------------------------------------------------------
// Order
// ---------------------------------------------------------------------------

/// `a` is not behind `b` in the order of code points.
pub open spec fn text_le(a: Seq<char>, b: Seq<char>) -> bool
    decreases a.len(),
{
    if a.len() == 0 {
        true
    } else if b.len() == 0 {
        false
    } else if a[0] == b[0] {
        text_le(a.drop_first(), b.drop_first())
    } else {
        a[0] < b[0]
    }
}

fn not_behind(a: &String, b: &String) -> (r: bool)
    ensures
        r == text_le(a@, b@),
{
    let x = text::chars_of(a.as_str());
    let y = text::chars_of(b.as_str());
    let mut i: usize = 0;
    assert(x@.skip(0) =~= x@);
    assert(y@.skip(0) =~= y@);
    while i < x.len()
        invariant
            i <= x@.len(),
            i <= y@.len(),
            x@ == a@,
            y@ == b@,
            text_le(a@, b@) == text_le(x@.skip(i as int), y@.skip(i as int)),
        decreases x@.len() - i,
    {
        if i >= y.len() {
            return false;
        }
        assert(x@.skip(i as int).drop_first() =~= x@.skip(i + 1));
        assert(y@.skip(i as int).drop_first() =~= y@.skip(i + 1));
        if x[i] != y[i] {
            return x[i] < y[i];
        }
        i = i + 1;
    }
    true
}

/// A sorted list with another file, behind those whose path is not behind its.
pub open spec fn inserted(v: Seq<HubFileV>, x: HubFileV) -> Seq<HubFileV>
    decreases v.len(),
{
    if v.len() == 0 {
        seq![x]
    } else if text_le(v.last().path, x.path) {
        v.push(x)
    } else {
        inserted(v.drop_last(), x).push(v.last())
    }
}

/// The files by path; files of the same path stay in order.
pub open spec fn sorted(v: Seq<HubFileV>) -> Seq<HubFileV>
    decreases v.len(),
{
    if v.len() == 0 {
        seq![]
    } else {
        inserted(sorted(v.drop_last()), v.last())
    }
}

proof fn lemma_inserted(v: Seq<HubFileV>, x: HubFileV, at: int)
    requires
        0 <= at <= v.len(),
        at == 0 || text_le(v[at - 1].path, x.path),
        forall|i: int| at <= i < v.len() ==> !text_le((#[trigger] v[i]).path, x.path),
    ensures
        inserted(v, x) == v.insert(at, x),
    decreases v.len(),
{
    if at == v.len() {
        if v.len() == 0 {
            assert(v.insert(at, x) =~= seq![x]);
        } else {
            assert(v.insert(at, x) =~= v.push(x));
        }
    } else {
        assert(v[v.len() - 1] == v.last());
        lemma_inserted(v.drop_last(), x, at);
        assert(v.drop_last().insert(at, x).push(v.last()) =~= v.insert(at, x));
    }
}

fn insert_sorted(v: &mut Vec<HubFile>, x: HubFile)
    ensures
        files_v(final(v)@) == inserted(files_v(old(v)@), x@),
{
    let ghost all = files_v(v@);
    let ghost xv = x@;
    let mut at: usize = v.len();
    while at > 0 && !not_behind(&v[at - 1].path, &x.path)
        invariant
            at <= v@.len(),
            v@ == old(v)@,
            all == files_v(v@),
            xv == x@,
            forall|i: int| at <= i < v@.len() ==> !text_le((#[trigger] all[i]).path, xv.path),
        decreases at,
    {
        assert(all[at - 1].path == v@[at - 1].path@);
        at = at - 1;
    }
    proof {
        if at > 0 {
            assert(all[at - 1].path == v@[at - 1].path@);
        }
        lemma_inserted(all, xv, at as int);
    }
    v.insert(at, x);
    assert(files_v(v@) =~= all.insert(at as int, xv));
}

// ---------------------------------------------------------------------------
// Selection
// ---------------------------------------------------------------------------

pub open spec fn ends_with(s: Seq<char>, end: Seq<char>) -> bool {
    s.len() >= end.len() && s.skip(s.len() - end.len()) == end
}

/// The items that are exports; an unknown size is zero.
pub open spec fn exports(v: Seq<ListedV>) -> Seq<HubFileV>
    decreases v.len(),
{
    if v.len() == 0 {
        seq![]
    } else {
        let front = exports(v.drop_last());
        match v.last().path {
            Some(p) => if ends_with(p, ".onnx"@) {
                front.push(
                    HubFileV {
                        path: p,
                        size: match v.last().size {
                            Some(n) => n,
                            None => 0,
                        },
                    },
                )
            } else {
                front
            },
            None => front,
        }
    }
}

fn check_ending(s: &String, end: &str) -> (r: bool)
    ensures
        r == ends_with(s@, end@),
{
    let x = text::chars_of(s.as_str());
    let y = text::chars_of(end);
    if x.len() < y.len() {
        return false;
    }
    let from: usize = x.len() - y.len();
    let mut i: usize = 0;
    while i < y.len()
        invariant
            i <= y@.len(),
            from + y@.len() == x@.len(),
            x@.len() <= usize::MAX,
            x@ == s@,
            y@ == end@,
            forall|k: int| 0 <= k < i ==> x@[from + k] == y@[k],
        decreases y@.len() - i,
    {
        if x[from + i] != y[i] {
            assert(s@.skip(from as int)[i as int] != end@[i as int]);
            return false;
        }
        i = i + 1;
    }
    assert(s@.skip(from as int) =~= end@);
    true
}

/// The exports of a listing (`.onnx` files), sorted by path.
pub fn select_exports(items: &Vec<ListedFile>) -> (r: Vec<HubFile>)
    ensures
        files_v(r@) == sorted(exports(listed_v(items@))),
{
    let ghost all = listed_v(items@);
    let mut out: Vec<HubFile> = Vec::new();
    let mut i: usize = 0;
    assert(all.take(0) =~= Seq::<ListedV>::empty());
    assert(files_v(out@) =~= Seq::<HubFileV>::empty());
    while i < items.len()
        invariant
            i <= items@.len(),
            all == listed_v(items@),
            files_v(out@) == sorted(exports(all.take(i as int))),
        decreases items@.len() - i,
    {
        assert(all[i as int] == items@[i as int]@);
        assert(all.take(i + 1).drop_last() =~= all.take(i as int));
        if let Some(p) = &items[i].path {
            if check_ending(p, ".onnx") {
                let size: u64 = match items[i].size {
                    Some(n) => n,
                    None => 0,
                };
                let x = HubFile { path: p.clone(), size };
                proof {
                    let front = exports(all.take(i as int));
                    assert(front.push(x@).drop_last() =~= front);
                }
                insert_sorted(&mut out, x);
            }
        }
        i = i + 1;
    }
    assert(all.take(i as int) =~= all);
    out
}

// ---------------------------------------------------------------------------
// Listings
// ---------------------------------------------------------------------------

/// A member of the object that a JSON text denotes.
pub open spec fn member(doc: Seq<char>, key: Seq<char>) -> Option<Seq<char>> {
    match json::json_object(doc) {
        Some(v) => overrides::pair_value(v, key),
        None => None,
    }
}

/// An item of a listing: its `path`, and the `size` within `lfs` or its own.
pub open spec fn listed(doc: Seq<char>) -> ListedV {
    let outer = member(doc, "size"@);
    let size = match member(doc, "lfs"@) {
        Some(lfs) => match member(lfs, "size"@) {
            Some(s) => Some(s),
            None => outer,
        },
        None => outer,
    };
    ListedV {
        path: match member(doc, "path"@) {
            Some(p) => json::json_string(p),
            None => None,
        },
        size: match size {
            Some(s) => json::json_natural(s),
            None => None,
        },
    }
}

pub open spec fn all_listed(v: Seq<Seq<char>>) -> Seq<ListedV> {
    Seq::new(v.len(), |i: int| listed(v[i]))
}

fn find_member(doc: &String, key: &str) -> (r: Option<String>)
    ensures
        r matches Some(s) ==> member(doc@, key@) == Some(s@),
        r is None ==> member(doc@, key@) is None,
{
    match json::read_object(doc.as_str()) {
        Some(v) => match overrides::find_pair(&v, key) {
            Some(s) => Some(s.clone()),
            None => None,
        },
        None => None,
    }
}

fn read_listed(doc: &String) -> (r: ListedFile)
    ensures
        r@ == listed(doc@),
{
    let path: Option<String> = match find_member(doc, "path") {
        Some(p) => json::read_string(p.as_str()),
        None => None,
    };
    let inner: Option<String> = match find_member(doc, "lfs") {
        Some(lfs) => find_member(&lfs, "size"),
        None => None,
    };
    let size: Option<String> = match inner {
        Some(s) => Some(s),
        None => find_member(doc, "size"),
    };
    let size: Option<u64> = match size {
        Some(s) => json::read_natural(s.as_str()),
        None => None,
    };
    ListedFile { path, size }
}

pub open spec fn listing_result(r: Result<Vec<HubFile>, String>) -> Result<
    Seq<HubFileV>,
    Seq<char>,
> {
    match r {
        Ok(v) => Ok(files_v(v@)),
        Err(m) => Err(m@),
    }
}

/// Reads the listing that a server sent for `url`: the `.onnx` files with their
/// sizes, sorted by path.
pub fn read_listing(url: &str, body: &str) -> (r: Result<Vec<HubFile>, String>)
    ensures
        listing_result(r) == (match json::json_array(body@) {
            Ok(v) => Ok(sorted(exports(all_listed(v)))),
            Err(m) => Err(url@ + ": unexpected response: "@ + m),
        }),
{
    let docs = match json::read_array(body) {
        Ok(v) => v,
        Err(m) => {
            let mut s = String::from_str(url);
            s.append(": unexpected response: ");
            s.append(m.as_str());
            return Err(s);
        },
    };
    let ghost texts = json::texts_v(docs@);
    let mut items: Vec<ListedFile> = Vec::new();
    let mut i: usize = 0;
    while i < docs.len()
        invariant
            i <= docs@.len(),
            texts == json::texts_v(docs@),
            items@.len() == i,
            forall|k: int| 0 <= k < i ==> (#[trigger] items@[k])@ == listed(texts[k]),
        decreases docs@.len() - i,
    {
        items.push(read_listed(&docs[i]));
        i = i + 1;
    }
    assert(listed_v(items@) =~= all_listed(texts));
    Ok(select_exports(&items))
}

// ---------------------------------------------------------------------------
// Laws
// ---------------------------------------------------------------------------

proof fn lemma_text_total(a: Seq<char>, b: Seq<char>)
    ensures
        text_le(a, b) || text_le(b, a),
    decreases a.len(),
{
    if a.len() > 0 && b.len() > 0 && a[0] == b[0] {
        lemma_text_total(a.drop_first(), b.drop_first());
    }
}

proof fn lemma_text_transitive(a: Seq<char>, b: Seq<char>, c: Seq<char>)
    requires
        text_le(a, b),
        text_le(b, c),
    ensures
        text_le(a, c),
    decreases a.len(),
{
    if a.len() > 0 && a[0] == b[0] && b[0] == c[0] {
        lemma_text_transitive(a.drop_first(), b.drop_first(), c.drop_first());
    }
}

pub open spec fn is_sorted(v: Seq<HubFileV>) -> bool {
    forall|i: int, j: int|
        0 <= i < j < v.len() ==> text_le((#[trigger] v[i]).path, (#[trigger] v[j]).path)
}

proof fn lemma_inserted_sorted(v: Seq<HubFileV>, x: HubFileV)
    requires
        is_sorted(v),
    ensures
        is_sorted(inserted(v, x)),
        inserted(v, x).to_multiset() == v.to_multiset().insert(x),
        forall|i: int|
            0 <= i < inserted(v, x).len() ==> (#[trigger] inserted(v, x)[i] == x || v.contains(
                inserted(v, x)[i],
            )),
    decreases v.len(),
{
    broadcast use vstd::seq_lib::group_to_multiset_ensures;

    let r = inserted(v, x);
    if v.len() == 0 {
        assert(seq![x] =~= Seq::<HubFileV>::empty().push(x));
        assert(v =~= Seq::<HubFileV>::empty());
    } else if text_le(v.last().path, x.path) {
        assert forall|i: int, j: int| 0 <= i < j < r.len() implies text_le(
            (#[trigger] r[i]).path,
            (#[trigger] r[j]).path,
        ) by {
            if j == v.len() {
                if i < v.len() - 1 {
                    assert(text_le(v[i].path, v[v.len() - 1].path));
                    lemma_text_transitive(v[i].path, v.last().path, x.path);
                }
            }
        }
        assert forall|i: int| 0 <= i < r.len() implies (#[trigger] r[i] == x || v.contains(
            r[i],
        )) by {
            if i < v.len() {
                assert(v[i] == r[i]);
            }
        }
    } else {
        let front = v.drop_last();
        assert(is_sorted(front)) by {
            assert forall|i: int, j: int| 0 <= i < j < front.len() implies text_le(
                (#[trigger] front[i]).path,
                (#[trigger] front[j]).path,
            ) by {
                assert(front[i] == v[i] && front[j] == v[j]);
            }
        }
        lemma_inserted_sorted(front, x);
        let below = inserted(front, x);
        lemma_text_total(v.last().path, x.path);
        assert forall|i: int, j: int| 0 <= i < j < r.len() implies text_le(
            (#[trigger] r[i]).path,
            (#[trigger] r[j]).path,
        ) by {
            if j < below.len() {
                assert(r[i] == below[i] && r[j] == below[j]);
            } else {
                assert(r[i] == below[i]);
                assert(r[j] == v.last());
                if below[i] != x {
                    assert(front.contains(below[i]));
                    let k = choose|k: int| 0 <= k < front.len() && front[k] == below[i];
                    assert(v[k] == below[i]);
                    assert(text_le(v[k].path, v[v.len() - 1].path));
                }
            }
        }
        assert forall|i: int| 0 <= i < r.len() implies (#[trigger] r[i] == x || v.contains(
            r[i],
        )) by {
            if i < below.len() {
                assert(r[i] == below[i]);
                if below[i] != x {
                    let k = choose|k: int| 0 <= k < front.len() && front[k] == below[i];
                    assert(v[k] == r[i]);
                }
            } else {
                assert(v[v.len() - 1] == r[i]);
            }
        }
        assert(front.push(v.last()) =~= v);
        assert(v.to_multiset() =~= front.to_multiset().insert(v.last()));
        assert(r.to_multiset() =~= below.to_multiset().insert(v.last()));
        assert(r.to_multiset() =~= v.to_multiset().insert(x));
    }
}

/// A listing is sorted by path and has the same files.
pub proof fn law_listing_is_sorted(v: Seq<HubFileV>)
    ensures
        is_sorted(sorted(v)),
        sorted(v).to_multiset() == v.to_multiset(),
    decreases v.len(),
{
    broadcast use vstd::seq_lib::group_to_multiset_ensures;

    if v.len() > 0 {
        law_listing_is_sorted(v.drop_last());
        lemma_inserted_sorted(sorted(v.drop_last()), v.last());
        assert(v.drop_last().push(v.last()) =~= v);
    }
}

} // verus!
