use vstd::prelude::*;

verus! {

/// Where a path's last component starts: just after its last `/`, or at 0.
pub open spec fn name_start(p: Seq<char>) -> int
    decreases p.len(),
{
    if p.len() == 0 {
        0
    } else if p.last() == '/' {
        p.len() as int
    } else {
        name_start(p.drop_last())
    }
}

/// The last component of a path: what follows its last `/`.
pub open spec fn base_name(p: Seq<char>) -> Seq<char> {
    p.subrange(name_start(p), p.len() as int)
}

/// The last component starts within the path.
proof fn lemma_name_start_bound(p: Seq<char>)
    ensures
        0 <= name_start(p) <= p.len(),
    decreases p.len(),
{
    if p.len() > 0 && p.last() != '/' {
        lemma_name_start_bound(p.drop_last());
    }
}

/// The last component of one path.
pub fn base_name_of(path: &str) -> (r: String)
    ensures
        r@ == base_name(path@),
{
    let n = path.unicode_len();
    let mut j: usize = n;
    assert(path@.subrange(0, n as int) =~= path@);
    while j > 0 && path.get_char(j - 1) != '/'
        invariant
            n == path@.len(),
            j <= n,
            name_start(path@) == name_start(path@.subrange(0, j as int)),
        decreases j,
    {
        assert(path@.subrange(0, j as int).drop_last() =~= path@.subrange(0, j - 1));
        j = j - 1;
    }
    proof {
        lemma_name_start_bound(path@);
    }
    String::from_str(path.substring_char(j, n))
}

/// The services: the names of the entries of the log directory, one for
/// each path of an entry, in the same order.
pub fn all_services(entries: &Vec<String>) -> (r: Vec<String>)
    ensures
        r@.len() == entries@.len(),
        forall|i: int| 0 <= i < r@.len() ==> #[trigger] r@[i]@ == base_name(entries@[i]@),
{
    let mut services: Vec<String> = Vec::new();
    let mut i: usize = 0;
    while i < entries.len()
        invariant
            i <= entries@.len(),
            services@.len() == i,
            forall|k: int| 0 <= k < i ==> #[trigger] services@[k]@ == base_name(entries@[k]@),
        decreases entries@.len() - i,
    {
        services.push(base_name_of(entries[i].as_str()));
        i = i + 1;
    }
    services
}

/// Whether a name is among the texts.
pub open spec fn listed(names: Seq<String>, s: Seq<char>) -> bool {
    exists|k: int| 0 <= k < names.len() && #[trigger] names[k]@ == s
}

/// Whether a name is among the texts.
pub fn contains_name(names: &Vec<String>, s: &String) -> (r: bool)
    ensures
        r == listed(names@, s@),
{
    let mut k: usize = 0;
    while k < names.len()
        invariant
            k <= names@.len(),
            forall|m: int| 0 <= m < k ==> #[trigger] names@[m]@ != s@,
        decreases names@.len() - k,
    {
        if names[k] == *s {
            assert(names@[k as int]@ == s@);
            return true;
        }
        k = k + 1;
    }
    false
}

/// Whether the name at `i` is the first of `wanted` that is not available.
pub open spec fn first_missing(wanted: Seq<String>, available: Seq<String>, i: int) -> bool {
    &&& 0 <= i < wanted.len()
    &&& !listed(available, wanted[i]@)
    &&& forall|j: int| 0 <= j < i ==> listed(available, #[trigger] wanted[j]@)
}

/// The pattern that stands for every service.
pub open spec fn every_service() -> Seq<char> {
    seq!['*', '*']
}

/// The services to show. Without a list, every service, written as the
/// pattern `**`; with one, the list itself, each of whose names is an
/// available service.
pub fn read_services(wanted: Option<Vec<String>>, available: &Vec<String>) -> (r: Vec<String>)
    requires
        wanted matches Some(w) ==> forall|i: int|
            0 <= i < w@.len() ==> listed(available@, #[trigger] w@[i]@),
    ensures
        wanted is None ==> r@.len() == 1 && r@[0]@ == every_service(),
        wanted matches Some(w) ==> r@ == w@,
{
    match wanted {
        None => {
            let mut v: Vec<String> = Vec::new();
            let all = String::from_str("**");
            proof {
                reveal_strlit("**");
            }
            assert(all@ =~= every_service());
            v.push(all);
            v
        },
        Some(w) => w,
    }
}

/// The index of the first name of `wanted` that is not available, if any.
pub fn find_missing(wanted: &Vec<String>, available: &Vec<String>) -> (r: Option<usize>)
    ensures
        r is None <==> forall|i: int| 0 <= i < wanted@.len() ==> listed(available@, #[trigger] wanted@[i]@),
        r matches Some(i) ==> first_missing(wanted@, available@, i as int),
{
    let mut i: usize = 0;
    while i < wanted.len()
        invariant
            i <= wanted@.len(),
            forall|j: int| 0 <= j < i ==> listed(available@, #[trigger] wanted@[j]@),
        decreases wanted@.len() - i,
    {
        if !contains_name(available, &wanted[i]) {
            return Some(i);
        }
        i = i + 1;
    }
    None
}

} // verus!
