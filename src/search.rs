//! Resolving a command name along a colon-separated search path.

use vstd::prelude::*;

verus! {

/// The colon-separated fields of `s`, empty ones included; a string without
/// a colon is one field.
pub open spec fn fields(s: Seq<char>) -> Seq<Seq<char>>
    decreases s.len(),
{
    if s.len() == 0 {
        seq![seq![]]
    } else {
        let f = fields(s.drop_last());
        if s.last() == ':' {
            f.push(seq![])
        } else {
            f.update(f.len() - 1, f.last().push(s.last()))
        }
    }
}

/// The directories that a search-path value lists: none for an empty value.
pub open spec fn search_dirs(s: Seq<char>) -> Seq<Seq<char>> {
    if s.len() == 0 {
        seq![]
    } else {
        fields(s)
    }
}

/// The path of `name` inside `dir`: a separator is put between the two
/// unless `dir` is empty or already ends with one.
pub open spec fn join_path(dir: Seq<char>, name: Seq<char>) -> Seq<char> {
    if dir.len() == 0 {
        name
    } else if dir.last() == '/' {
        dir + name
    } else {
        dir + seq!['/'] + name
    }
}

/// Every search-path value has at least one field.
pub proof fn lemma_fields_nonempty(s: Seq<char>)
    ensures
        fields(s).len() >= 1,
    decreases s.len(),
{
    if s.len() > 0 {
        lemma_fields_nonempty(s.drop_last());
    }
}

/// Splits a search-path value on `:` into its directories, in order.
pub fn search_path_dirs(path_var: &str) -> (r: Vec<String>)
    ensures
        r.deep_view() == search_dirs(path_var@),
{
    let mut dirs: Vec<String> = Vec::new();
    if path_var.is_empty() {
        assert(dirs.deep_view() =~= Seq::<Seq<char>>::empty());
        return dirs;
    }
    let mut current = String::new();
    assert(path_var@.take(0) =~= Seq::<char>::empty());
    assert(dirs.deep_view().push(current@) =~= seq![Seq::<char>::empty()]);
    for c in it: path_var.chars()
        invariant
            it.seq() == path_var@,
            fields(path_var@.take(it.index() as int)) == dirs.deep_view().push(current@),
    {
        let ghost i = it.index() as int;
        proof {
            assert(path_var@.take(i + 1).drop_last() =~= path_var@.take(i));
            lemma_fields_nonempty(path_var@.take(i));
        }
        let ghost before = dirs.deep_view();
        let ghost field = current@;
        if c == ':' {
            dirs.push(current);
            current = String::new();
            assert(dirs.deep_view() =~= before.push(field));
        } else {
            current.push(c);
        }
        assert(fields(path_var@.take(i + 1)) =~= dirs.deep_view().push(current@));
    }
    assert(path_var@.take(path_var@.len() as int) =~= path_var@);
    let ghost before = dirs.deep_view();
    dirs.push(current);
    assert(dirs.deep_view() =~= before.push(current@));
    dirs
}

/// The path of `name` inside `dir`.
pub fn candidate_path(dir: &String, name: &str) -> (r: String)
    ensures
        r@ == join_path(dir@, name@),
{
    let mut r = dir.clone();
    let n = dir.as_str().unicode_len();
    if n > 0 && dir.as_str().get_char(n - 1) != '/' {
        r.push('/');
    }
    r.append(name);
    r
}

/// The candidate path of `name` in each directory of the search-path value
/// `path_var`, in the order the directories are listed.
pub fn candidate_paths(path_var: &str, name: &str) -> (r: Vec<String>)
    ensures
        r.len() == search_dirs(path_var@).len(),
        forall|i: int|
            0 <= i < r.len() ==> #[trigger] r[i]@ == join_path(search_dirs(path_var@)[i], name@),
{
    let dirs = search_path_dirs(path_var);
    let mut r: Vec<String> = Vec::new();
    for j in 0..dirs.len()
        invariant
            dirs.deep_view() == search_dirs(path_var@),
            r.len() == j,
            forall|i: int| 0 <= i < j ==> #[trigger] r[i]@ == join_path(dirs[i]@, name@),
    {
        r.push(candidate_path(&dirs[j], name));
    }
    r
}

/// The index of the first candidate for which `is_present` answers true; later
/// candidates are not asked about. `None` when it answers false for all.
pub fn first_existing<F: Fn(&String) -> bool>(candidates: &Vec<String>, is_present: F) -> (r: Option<
    usize,
>)
    requires
        forall|i: int| 0 <= i < candidates.len() ==> is_present.requires((&candidates[i],)),
    ensures
        match r {
            Some(k) => {
                &&& k < candidates.len()
                &&& is_present.ensures((&candidates[k as int],), true)
                &&& forall|i: int| 0 <= i < k ==> is_present.ensures((&candidates[i],), false)
            },
            None => forall|i: int|
                0 <= i < candidates.len() ==> is_present.ensures((&candidates[i],), false),
        },
{
    for k in 0..candidates.len()
        invariant
            forall|i: int| 0 <= i < candidates.len() ==> is_present.requires((&candidates[i],)),
            forall|i: int| 0 <= i < k ==> is_present.ensures((&candidates[i],), false),
    {
        if is_present(&candidates[k]) {
            return Some(k);
        }
    }
    None
}

} // verus!
