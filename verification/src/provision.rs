//! Pure text work for the provisioning collaborator: pulling the token
//! and the index list out of the management API's XML-shaped answers,
//! and deciding how an index is added to a token's index list.

use vstd::prelude::*;
use vstd::string::{StrSliceExecFns, StringExecFns};

verus! {

/// Whether the needle `n` stands in `h` at position `j`.
pub open spec fn sub_at(h: Seq<char>, n: Seq<char>, j: int) -> bool {
    0 <= j && j + n.len() <= h.len() && h.subrange(j, j + n.len()) == n
}

/// Whether `j` is the first position of `n` in `h`.
pub open spec fn first_sub_at(h: Seq<char>, n: Seq<char>, j: int) -> bool {
    sub_at(h, n, j) && forall|l: int| 0 <= l < j ==> !sub_at(h, n, l)
}

/// The first position of the needle `n` in `h`, scanning left to
/// right.
#[verifier::loop_isolation(false)]
pub fn find_sub(h: &str, n: &str) -> (r: Option<usize>)
    ensures
        match r {
            Option::Some(j) => first_sub_at(h@, n@, j as int),
            Option::None => forall|j: int| !sub_at(h@, n@, j),
        },
{
    let hn = h.unicode_len();
    let nn = n.unicode_len();
    if nn > hn {
        return None;
    }
    if nn == 0 {
        proof {
            assert(h@.subrange(0, 0) =~= n@);
        }
        return Some(0);
    }
    let mut j: usize = 0;
    while j <= hn - nn
        invariant
            j <= hn - nn + 1,
            forall|l: int| 0 <= l < j ==> !sub_at(h@, n@, l),
        decreases hn - nn + 1 - j,
    {
        if match_at(h, n, j) {
            return Some(j);
        }
        j += 1;
    }
    None
}

/// Whether the needle `n` stands in `h` at position `j`, compared
/// character by character.
#[verifier::loop_isolation(false)]
fn match_at(h: &str, n: &str, j: usize) -> (r: bool)
    requires
        j + n@.len() <= h@.len(),
    ensures
        r == sub_at(h@, n@, j as int),
{
    let hn = h.unicode_len();
    let nn = n.unicode_len();
    let mut k: usize = 0;
    while k < nn
        invariant
            k <= nn,
            j + nn <= hn,
            forall|l: int| 0 <= l < k ==> h@[j + l] == n@[l],
        decreases nn - k,
    {
        if h.get_char(j + k) != n.get_char(k) {
            proof {
                assert(h@.subrange(j as int, j + n@.len())[k as int] == h@[j + k]);
            }
            return false;
        }
        k += 1;
    }
    proof {
        assert(h@.subrange(j as int, j + n@.len()) =~= n@);
    }
    true
}

/// Whether `c` is one of the blank characters the trimming removes.
pub open spec fn is_blank(c: char) -> bool {
    c == ' ' || c == '\t' || c == '\n' || c == '\r'
}

/// `s` without its leading blanks.
pub open spec fn trim_front_spec(s: Seq<char>) -> Seq<char>
    decreases s.len(),
{
    if s.len() > 0 && is_blank(s[0]) {
        trim_front_spec(s.drop_first())
    } else {
        s
    }
}

/// `s` without its trailing blanks.
pub open spec fn trim_back_spec(s: Seq<char>) -> Seq<char>
    decreases s.len(),
{
    if s.len() > 0 && is_blank(s.last()) {
        trim_back_spec(s.drop_last())
    } else {
        s
    }
}

/// `s` without its leading and trailing blanks.
pub open spec fn trim_spec(s: Seq<char>) -> Seq<char> {
    trim_back_spec(trim_front_spec(s))
}

/// Dropping `a` leading blanks reaches the front-trimmed suffix.
proof fn lemma_trim_front(s: Seq<char>, a: int)
    requires
        0 <= a <= s.len(),
        forall|l: int| 0 <= l < a ==> is_blank(#[trigger] s[l]),
        a < s.len() ==> !is_blank(s[a]),
    ensures
        trim_front_spec(s) == s.skip(a),
    decreases a,
{
    if a == 0 {
        assert(s.skip(0) =~= s);
    } else {
        assert(is_blank(s[0]));
        lemma_trim_front(s.drop_first(), a - 1);
        assert(s.drop_first().skip(a - 1) =~= s.skip(a));
    }
}

/// Dropping trailing blanks down to `b` reaches the back-trimmed
/// prefix.
proof fn lemma_trim_back(s: Seq<char>, b: int)
    requires
        0 <= b <= s.len(),
        forall|l: int| b <= l < s.len() ==> is_blank(#[trigger] s[l]),
        b > 0 ==> !is_blank(s[b - 1]),
    ensures
        trim_back_spec(s) == s.take(b),
    decreases s.len() - b,
{
    if b == s.len() {
        if s.len() > 0 && is_blank(s.last()) {
            assert(!is_blank(s[b - 1]));
        }
        assert(s.take(b) =~= s);
    } else {
        assert(is_blank(s.last()));
        lemma_trim_back(s.drop_last(), b);
        assert(s.drop_last().take(b) =~= s.take(b));
    }
}

/// Whether `c` is one of the blank characters the trimming removes.
fn char_blank(c: char) -> (r: bool)
    ensures
        r == is_blank(c),
{
    c == ' ' || c == '\t' || c == '\n' || c == '\r'
}

/// `s` with leading and trailing blanks removed.
#[verifier::loop_isolation(false)]
pub fn trim_str(s: &str) -> (r: String)
    ensures
        r@ == trim_spec(s@),
{
    let n = s.unicode_len();
    let mut a: usize = 0;
    while a < n && char_blank(s.get_char(a))
        invariant
            a <= n,
            forall|l: int| 0 <= l < a ==> is_blank(#[trigger] s@[l]),
        decreases n - a,
    {
        a += 1;
    }
    proof {
        lemma_trim_front(s@, a as int);
    }
    let mut b: usize = n;
    while b > a && char_blank(s.get_char(b - 1))
        invariant
            a <= b <= n,
            forall|l: int| b <= l < n ==> is_blank(#[trigger] s@[l]),
        decreases b,
    {
        b -= 1;
    }
    let r = s.substring_char(a, b).to_owned();
    proof {
        let front = s@.skip(a as int);
        assert forall|l: int| (b - a) <= l < front.len() implies is_blank(
            #[trigger] front[l],
        ) by {
            assert(front[l] == s@[l + a]);
        }
        if b > a {
            assert(front[b - a - 1] == s@[b - 1]);
        }
        lemma_trim_back(front, b - a);
        assert(front.take(b - a) =~= s@.subrange(a as int, b as int));
    }
    r
}

/// What the token-extraction reads out of a management answer: the
/// trimmed text between the token key tag and the closing key tag.
pub open spec fn extract_token_spec(body: Seq<char>) -> Option<Seq<char>> {
    let tag = "<s:key name=\"token\">"@;
    if exists|j: int| first_sub_at(body, tag, j) {
        let j = choose|j: int| first_sub_at(body, tag, j);
        let rest = body.skip(j + tag.len());
        if exists|k: int| first_sub_at(rest, "</s:key>"@, k) {
            let k = choose|k: int| first_sub_at(rest, "</s:key>"@, k);
            Some(trim_spec(rest.take(k)))
        } else {
            None
        }
    } else {
        None
    }
}

/// Pulls the token out of a management answer: the trimmed text
/// between the token key tag and the closing key tag, if both stand
/// there.
pub fn extract_token(body: &str) -> (r: Option<String>)
    ensures
        match r {
            Option::Some(t) => extract_token_spec(body@) == Some(t@),
            Option::None => extract_token_spec(body@) is None,
        },
{
    let tag = "<s:key name=\"token\">";
    match find_sub(body, tag) {
        Option::Some(j) => {
            let taglen = tag.unicode_len();
            let n = body.unicode_len();
            let rest = body.substring_char(j + taglen, n);
            proof {
                assert(rest@ == body@.skip(j + tag@.len()));
                let jj = choose|jj: int| first_sub_at(body@, tag@, jj);
                assert(jj == j as int);
            }
            match find_sub(rest, "</s:key>") {
                Option::Some(k) => {
                    let piece = rest.substring_char(0, k);
                    proof {
                        let kk = choose|kk: int| first_sub_at(rest@, "</s:key>"@, kk);
                        assert(kk == k as int);
                        assert(piece@ == rest@.take(k as int));
                    }
                    Some(trim_str(piece))
                },
                Option::None => None,
            }
        },
        Option::None => None,
    }
}

/// The trimmed texts between each item tag pair, in order, stopping at
/// the first unmatched opening tag.
pub open spec fn items_spec(s: Seq<char>) -> Seq<Seq<char>>
    decreases s.len(),
{
    let open_tag = "<s:item>"@;
    let close_tag = "</s:item>"@;
    if exists|j: int| first_sub_at(s, open_tag, j) && open_tag.len() > 0 && close_tag.len() > 0 {
        let j = choose|j: int| first_sub_at(s, open_tag, j);
        let after = s.skip(j + open_tag.len());
        if exists|k: int| first_sub_at(after, close_tag, k) {
            let k = choose|k: int| first_sub_at(after, close_tag, k);
            seq![trim_spec(after.take(k))] + items_spec(after.skip(k + close_tag.len()))
        } else {
            Seq::empty()
        }
    } else {
        Seq::empty()
    }
}

/// Pulls each trimmed item text out of `s`, in order.
pub fn extract_items(s: &str) -> (r: Vec<String>)
    ensures
        r.deep_view() == items_spec(s@),
    decreases s@.len(),
{
    let open_tag = "<s:item>";
    let close_tag = "</s:item>";
    let otlen = open_tag.unicode_len();
    let ctlen = close_tag.unicode_len();
    match find_sub(s, open_tag) {
        Option::Some(j) => {
            proof {
                let jj = choose|jj: int| first_sub_at(s@, open_tag@, jj);
                assert(jj == j as int);
            }
            let n = s.unicode_len();
            let after = s.substring_char(j + otlen, n);
            proof {
                assert(after@ == s@.skip(j + open_tag@.len()));
            }
            match find_sub(after, close_tag) {
                Option::Some(k) => {
                    proof {
                        let kk = choose|kk: int| first_sub_at(after@, close_tag@, kk);
                        assert(kk == k as int);
                    }
                    let an = after.unicode_len();
                    let head = trim_str(after.substring_char(0, k));
                    let rest = after.substring_char(k + ctlen, an);
                    proof {
                        assert(rest@ == after@.skip(k + close_tag@.len()));
                        assert(otlen > 0) by {
                            reveal_strlit("<s:item>");
                        }
                        assert(ctlen > 0) by {
                            reveal_strlit("</s:item>");
                        }
                    }
                    let mut v = extract_items(rest);
                    v.insert(0, head);
                    proof {
                        assert(v.deep_view() =~= seq![head@] + items_spec(rest@));
                        assert(after@.take(k as int) == after@.take(
                            choose|kk: int| first_sub_at(after@, close_tag@, kk),
                        ));
                    }
                    v
                },
                Option::None => {
                    let v: Vec<String> = Vec::new();
                    proof {
                        assert(v.deep_view() =~= Seq::<Seq<char>>::empty());
                    }
                    v
                },
            }
        },
        Option::None => {
            let v: Vec<String> = Vec::new();
            proof {
                assert(v.deep_view() =~= Seq::<Seq<char>>::empty());
            }
            v
        },
    }
}

/// What the index-list extraction reads out of a management answer:
/// the items of the indexes key section, or nothing when the section
/// is absent or unclosed.
pub open spec fn extract_indexes_spec(body: Seq<char>) -> Seq<Seq<char>> {
    let tag = "<s:key name=\"indexes\">"@;
    if exists|j: int| first_sub_at(body, tag, j) {
        let j = choose|j: int| first_sub_at(body, tag, j);
        let rest = body.skip(j + tag.len());
        if exists|k: int| first_sub_at(rest, "</s:key>"@, k) {
            let k = choose|k: int| first_sub_at(rest, "</s:key>"@, k);
            items_spec(rest.take(k))
        } else {
            Seq::empty()
        }
    } else {
        Seq::empty()
    }
}

/// Pulls the index names a token is bound to out of a management
/// answer.
pub fn extract_indexes(body: &str) -> (r: Vec<String>)
    ensures
        r.deep_view() == extract_indexes_spec(body@),
{
    let tag = "<s:key name=\"indexes\">";
    match find_sub(body, tag) {
        Option::Some(j) => {
            let taglen = tag.unicode_len();
            let n = body.unicode_len();
            let rest = body.substring_char(j + taglen, n);
            proof {
                assert(rest@ == body@.skip(j + tag@.len()));
                let jj = choose|jj: int| first_sub_at(body@, tag@, jj);
                assert(jj == j as int);
            }
            match find_sub(rest, "</s:key>") {
                Option::Some(k) => {
                    let section = rest.substring_char(0, k);
                    proof {
                        let kk = choose|kk: int| first_sub_at(rest@, "</s:key>"@, kk);
                        assert(kk == k as int);
                        assert(section@ == rest@.take(k as int));
                    }
                    extract_items(section)
                },
                Option::None => Vec::new(),
            }
        },
        Option::None => Vec::new(),
    }
}

/// Whether `x` stands in the list `ss`.
pub open spec fn contains_str(ss: Seq<Seq<char>>, x: Seq<char>) -> bool {
    exists|i: int| 0 <= i < ss.len() && ss[i] == x
}

/// The list joined with commas between the entries.
pub open spec fn join_commas(ss: Seq<Seq<char>>) -> Seq<char>
    decreases ss.len(),
{
    if ss.len() == 0 {
        Seq::empty()
    } else if ss.len() == 1 {
        ss[0]
    } else {
        join_commas(ss.drop_last()) + ","@ + ss.last()
    }
}

/// How an index joins a token's index list: nothing to do when it is
/// already bound; otherwise the new list with the index appended, and
/// the comma-joined form the registration posts.
#[verifier::loop_isolation(false)]
pub fn updated_indexes(existing: &Vec<String>, index: &String) -> (r: Option<(Vec<String>, String)>)
    ensures
        match r {
            Option::Some(p) => {
                &&& !contains_str(existing.deep_view(), index@)
                &&& p.0.deep_view() == existing.deep_view().push(index@)
                &&& p.1@ == join_commas(existing.deep_view().push(index@))
            },
            Option::None => contains_str(existing.deep_view(), index@),
        },
{
    let mut i: usize = 0;
    while i < existing.len()
        invariant
            i <= existing@.len(),
            forall|l: int| 0 <= l < i ==> existing@[l]@ != index@,
        decreases existing.len() - i,
    {
        let bs = String::from_str(index.as_str());
        if existing[i].eq(&bs) {
            proof {
                assert(existing.deep_view()[i as int] == index@);
            }
            return None;
        }
        i += 1;
    }
    proof {
        assert forall|l: int| 0 <= l < existing.deep_view().len() implies existing.deep_view()[l]
            != index@ by {
            assert(existing.deep_view()[l] == existing@[l]@);
        }
    }
    let mut list: Vec<String> = Vec::new();
    let mut k: usize = 0;
    while k < existing.len()
        invariant
            k <= existing@.len(),
            list.deep_view() == existing.deep_view().take(k as int),
        decreases existing.len() - k,
    {
        list.push(existing[k].clone());
        k += 1;
        assert(list.deep_view() =~= existing.deep_view().take(k as int));
    }
    list.push(String::from_str(index.as_str()));
    proof {
        assert(existing.deep_view().take(existing@.len() as int) =~= existing.deep_view());
        assert(list.deep_view() =~= existing.deep_view().push(index@));
    }
    let mut joined = String::new();
    let mut m: usize = 0;
    let ghost full = list.deep_view();
    while m < list.len()
        invariant
            m <= list@.len(),
            full == list.deep_view(),
            joined@ == join_commas(full.take(m as int)),
        decreases list.len() - m,
    {
        if m > 0 {
            joined.append(",");
        }
        joined.append(list[m].as_str());
        m += 1;
        proof {
            assert(full.take(m as int).drop_last() =~= full.take(m as int - 1));
            assert(full.take(m as int).last() == full[m as int - 1]);
            if m == 1 {
                assert(joined@ =~= join_commas(full.take(m as int)));
            } else {
                assert(joined@ =~= join_commas(full.take(m as int)));
            }
        }
    }
    proof {
        assert(full.take(list@.len() as int) =~= full);
    }
    Some((list, joined))
}

} // verus!
