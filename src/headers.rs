use vstd::prelude::*;

verus! {

broadcast use vstd::seq_lib::group_to_multiset_ensures;

/// What `str::to_lowercase` makes of a string.
pub uninterp spec fn lower_of(s: Seq<char>) -> Seq<char>;

/// The text that `std::str::from_utf8` reads from bytes, or `None` where they are not UTF-8.
pub uninterp spec fn utf8_text(b: Seq<u8>) -> Option<Seq<char>>;

/// Relies on str::to_lowercase: the lower-case form depends on the characters alone.
#[verifier::external_body]
pub(crate) fn lowercase(s: &str) -> (r: String)
    ensures
        r@ == lower_of(s@),
{
    s.to_lowercase()
}

/// Relies on std::str::from_utf8: the bytes as text when they are valid UTF-8.
#[verifier::external_body]
pub(crate) fn decode_utf8(b: &[u8]) -> (r: Option<String>)
    ensures
        match r {
            Some(t) => utf8_text(b@) == Some(t@),
            None => utf8_text(b@) is None,
        },
{
    match std::str::from_utf8(b) {
        Ok(t) => Some(t.to_string()),
        Err(_) => None,
    }
}

pub open spec fn opt_view(o: Option<String>) -> Option<Seq<char>> {
    match o {
        Some(s) => Some(s@),
        None => None,
    }
}

/// Header names and values as the selector reads them.
pub open spec fn prepared_view(h: Seq<(String, Option<String>)>) -> Seq<(Seq<char>, Option<Seq<char>>)> {
    h.map_values(|p: (String, Option<String>)| (p.0@, opt_view(p.1)))
}

/// A raw header as the selector reads it: lower-cased name, value as text if it is UTF-8.
pub open spec fn prepare(p: (Seq<char>, Seq<u8>)) -> (Seq<char>, Option<Seq<char>>) {
    (lower_of(p.0), utf8_text(p.1))
}

pub open spec fn raw_view(h: Seq<(String, Vec<u8>)>) -> Seq<(Seq<char>, Seq<u8>)> {
    h.map_values(|p: (String, Vec<u8>)| (p.0@, p.1@))
}

/// The value of the latest header named `name` whose value is text.
pub open spec fn header_value(name: Seq<char>, hs: Seq<(Seq<char>, Option<Seq<char>>)>) -> Option<
    Seq<char>,
>
    decreases hs.len(),
{
    if hs.len() == 0 {
        None
    } else if hs.last().0 == name && hs.last().1 is Some {
        hs.last().1
    } else {
        header_value(name, hs.drop_last())
    }
}

/// The matching key: the value of the first important header, in the order given, that
/// the request carries as text; empty when there is none.
pub open spec fn selected_key(important: Seq<Seq<char>>, hs: Seq<(Seq<char>, Option<Seq<char>>)>) -> Seq<
    char,
>
    decreases important.len(),
{
    if important.len() == 0 {
        Seq::empty()
    } else {
        match header_value(important[0], hs) {
            Some(v) => v,
            None => selected_key(important.drop_first(), hs),
        }
    }
}

pub open spec fn names_view(s: Seq<String>) -> Seq<Seq<char>> {
    s.map_values(|x: String| x@)
}

/// No two headers share a name.
pub open spec fn distinct_names(hs: Seq<(Seq<char>, Option<Seq<char>>)>) -> bool {
    forall|i: int, j: int| 0 <= i < j < hs.len() ==> #[trigger] hs[i].0 != #[trigger] hs[j].0
}

/// The latest text value of `name` among the headers.
pub fn latest_value(name: &String, headers: &Vec<(String, Option<String>)>) -> (r: Option<String>)
    ensures
        opt_view(r) == header_value(name@, prepared_view(headers@)),
{
    let ghost hs = prepared_view(headers@);
    let mut k: usize = headers.len();
    assert(hs.take(k as int) =~= hs);
    while k > 0
        invariant
            k <= headers@.len(),
            hs == prepared_view(headers@),
            header_value(name@, hs) == header_value(name@, hs.take(k as int)),
        decreases k,
    {
        proof {
            assert(hs.take(k as int).drop_last() =~= hs.take(k - 1));
        }
        let h = &headers[k - 1];
        if h.0 == *name {
            if let Some(v) = &h.1 {
                return Some(v.clone());
            }
        }
        k = k - 1;
    }
    proof {
        assert(hs.take(0) =~= Seq::<(Seq<char>, Option<Seq<char>>)>::empty());
    }
    None
}

/// The matching key of prepared headers: `important` holds the lower-cased names of the
/// important headers by priority, `headers` the lower-cased names and text values.
pub fn normalized_key(important: &Vec<String>, headers: &Vec<(String, Option<String>)>) -> (r: String)
    ensures
        r@ == selected_key(names_view(important@), prepared_view(headers@)),
{
    let ghost imp = names_view(important@);
    let mut k: usize = 0;
    assert(imp.subrange(0, imp.len() as int) =~= imp);
    while k < important.len()
        invariant
            k <= important@.len(),
            imp == names_view(important@),
            selected_key(imp, prepared_view(headers@)) == selected_key(
                imp.subrange(k as int, imp.len() as int),
                prepared_view(headers@),
            ),
        decreases important@.len() - k,
    {
        proof {
            assert(imp.subrange(k as int, imp.len() as int).drop_first() =~= imp.subrange(
                k + 1,
                imp.len() as int,
            ));
        }
        match latest_value(&important[k], headers) {
            Some(v) => {
                return v;
            },
            None => {},
        }
        k = k + 1;
    }
    String::new()
}

/// With distinct names, a header value is found exactly when the request carries it.
pub proof fn lemma_header_value_contains(
    name: Seq<char>,
    v: Seq<char>,
    hs: Seq<(Seq<char>, Option<Seq<char>>)>,
)
    requires
        distinct_names(hs),
    ensures
        header_value(name, hs) == Some(v) <==> hs.contains((name, Some(v))),
    decreases hs.len(),
{
    if hs.len() > 0 {
        let t = hs.drop_last();
        assert(distinct_names(t));
        lemma_header_value_contains(name, v, t);
        if hs.contains((name, Some(v))) {
            let j = choose|j: int| 0 <= j < hs.len() && hs[j] == (name, Some(v));
            if j < hs.len() - 1 {
                assert(t[j] == hs[j]);
                if hs.last().0 == name {
                    assert(hs[j].0 == hs[hs.len() - 1].0);
                }
            }
        }
        if t.contains((name, Some(v))) {
            let j = choose|j: int| 0 <= j < t.len() && t[j] == (name, Some(v));
            assert(hs[j] == t[j]);
        }
        if hs.last().0 == name && hs.last().1 is Some && hs.contains((name, Some(v))) {
            let j = choose|j: int| 0 <= j < hs.len() && hs[j] == (name, Some(v));
            if j < hs.len() - 1 {
                assert(hs[j].0 == hs[hs.len() - 1].0);
            }
        }
    }
}

/// Two requests that carry the same headers, with distinct names, give the same value
/// for every header name.
proof fn lemma_header_value_order_free(
    name: Seq<char>,
    h1: Seq<(Seq<char>, Option<Seq<char>>)>,
    h2: Seq<(Seq<char>, Option<Seq<char>>)>,
)
    requires
        distinct_names(h1),
        distinct_names(h2),
        forall|x: (Seq<char>, Option<Seq<char>>)| h1.contains(x) == h2.contains(x),
    ensures
        header_value(name, h1) == header_value(name, h2),
{
    if let Some(v) = header_value(name, h1) {
        lemma_header_value_contains(name, v, h1);
        lemma_header_value_contains(name, v, h2);
    }
    if let Some(v) = header_value(name, h2) {
        lemma_header_value_contains(name, v, h1);
        lemma_header_value_contains(name, v, h2);
    }
}

proof fn lemma_selected_key_order_free(
    important: Seq<Seq<char>>,
    h1: Seq<(Seq<char>, Option<Seq<char>>)>,
    h2: Seq<(Seq<char>, Option<Seq<char>>)>,
)
    requires
        distinct_names(h1),
        distinct_names(h2),
        forall|x: (Seq<char>, Option<Seq<char>>)| h1.contains(x) == h2.contains(x),
    ensures
        selected_key(important, h1) == selected_key(important, h2),
    decreases important.len(),
{
    if important.len() > 0 {
        lemma_header_value_order_free(important[0], h1, h2);
        lemma_selected_key_order_free(important.drop_first(), h1, h2);
    }
}

/// The matching key of raw request headers.
pub open spec fn request_key(important: Seq<Seq<char>>, raw: Seq<(Seq<char>, Seq<u8>)>) -> Seq<char> {
    selected_key(important, raw.map_values(|p: (Seq<char>, Seq<u8>)| prepare(p)))
}

/// Order independence: two requests that carry the same headers in any order, with
/// header names that stay distinct once lower-cased, give the same matching key.
pub proof fn lemma_key_order_independent(
    important: Seq<Seq<char>>,
    raw1: Seq<(Seq<char>, Seq<u8>)>,
    raw2: Seq<(Seq<char>, Seq<u8>)>,
)
    requires
        raw1.to_multiset() == raw2.to_multiset(),
        distinct_names(raw1.map_values(|p: (Seq<char>, Seq<u8>)| prepare(p))),
        distinct_names(raw2.map_values(|p: (Seq<char>, Seq<u8>)| prepare(p))),
    ensures
        request_key(important, raw1) == request_key(important, raw2),
{
    let h1 = raw1.map_values(|p: (Seq<char>, Seq<u8>)| prepare(p));
    let h2 = raw2.map_values(|p: (Seq<char>, Seq<u8>)| prepare(p));
    raw1.to_multiset_ensures();
    raw2.to_multiset_ensures();
    assert forall|x: (Seq<char>, Option<Seq<char>>)| h1.contains(x) == h2.contains(x) by {
        if h1.contains(x) {
            let j = choose|j: int| 0 <= j < h1.len() && h1[j] == x;
            assert(raw1.to_multiset().count(raw1[j]) > 0);
            assert(raw2.contains(raw1[j]));
            let k = choose|k: int| 0 <= k < raw2.len() && raw2[k] == raw1[j];
            assert(h2[k] == x);
        }
        if h2.contains(x) {
            let j = choose|j: int| 0 <= j < h2.len() && h2[j] == x;
            assert(raw2.to_multiset().count(raw2[j]) > 0);
            assert(raw1.contains(raw2[j]));
            let k = choose|k: int| 0 <= k < raw1.len() && raw1[k] == raw2[j];
            assert(h1[k] == x);
        }
    }
    lemma_selected_key_order_free(important, h1, h2);
}

} // verus!
