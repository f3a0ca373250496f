use vstd::prelude::*;
use vstd::string::StringExecFns;
use vstd::relations::injective_on;
use vstd::set_lib::{lemma_int_range, lemma_len_subset, lemma_map_size, set_int_range};

use crate::handler::AppHandler;
use crate::model::DirKey;

verus! {

/// A sub-directory entry of a directory listing.
#[derive(Clone, Debug)]
pub struct SubDirectory {
    pub name: String,
    pub key: DirKey,
}

/// A file entry of a directory listing: its name and size in bytes.
#[derive(Clone, Debug)]
pub struct FileEntry {
    pub name: String,
    pub size: u64,
}

/// What the logic reads of a directory in the networked tree: its files and
/// its sub-directories with their keys.
#[derive(Clone, Debug)]
pub struct DirectoryListing {
    pub files: Vec<FileEntry>,
    pub sub_directories: Vec<SubDirectory>,
}

/// The names of the sub-directories of a listing, in order.
pub open spec fn sub_dir_names(l: DirectoryListing) -> Seq<Seq<char>> {
    l.sub_directories@.map_values(|d: SubDirectory| d.name@)
}

/// Whether a listing holds a sub-directory with exactly this name.
pub open spec fn has_sub_dir(l: DirectoryListing, name: Seq<char>) -> bool {
    sub_dir_names(l).contains(name)
}

/// Whether a listing holds a file with exactly this name.
pub open spec fn has_file(l: DirectoryListing, name: Seq<char>) -> bool {
    exists|j: int| 0 <= j < l.files@.len() && (#[trigger] l.files@[j]).name@ == name
}

/// `j` is the first position of a file with this name.
pub open spec fn is_first_file(l: DirectoryListing, name: Seq<char>, j: int) -> bool {
    0 <= j < l.files@.len() && l.files@[j].name@ == name && forall|k: int|
        0 <= k < j ==> l.files@[k].name@ != name
}

/// No two sub-directories of a listing share a name.
pub open spec fn sub_dir_names_unique(l: DirectoryListing) -> bool {
    sub_dir_names(l).no_duplicates()
}

/// The decimal digit for `d < 10`.
pub open spec fn digit(d: nat) -> char {
    if d == 0 { '0' }
    else if d == 1 { '1' }
    else if d == 2 { '2' }
    else if d == 3 { '3' }
    else if d == 4 { '4' }
    else if d == 5 { '5' }
    else if d == 6 { '6' }
    else if d == 7 { '7' }
    else if d == 8 { '8' }
    else { '9' }
}

/// Decimal notation of a natural number, without leading zeros.
pub open spec fn decimal(n: nat) -> Seq<char>
    decreases n,
{
    if n < 10 {
        seq![digit(n)]
    } else {
        decimal(n / 10).push(digit(n % 10))
    }
}

/// The candidate root-directory name `<app_name>-<index>-Root-Dir`.
pub open spec fn dir_name(app_name: Seq<char>, index: nat) -> Seq<char> {
    app_name + "-"@ + decimal(index) + "-Root-Dir"@
}

/// The root-directory name chosen for `app_name` in listing `l`: the
/// candidate of the smallest index that no sub-directory of `l` is named.
pub open spec fn is_first_free_dir_name(l: DirectoryListing, app_name: Seq<char>, r: Seq<char>) -> bool {
    exists|i: nat|
        r == dir_name(app_name, i) && !has_sub_dir(l, r) && forall|k: nat|
            k < i ==> has_sub_dir(l, #[trigger] dir_name(app_name, k))
}

proof fn lemma_decimal_len(n: nat)
    ensures
        decimal(n).len() >= 1,
        n >= 10 ==> decimal(n).len() >= 2,
    decreases n,
{
    if n >= 10 {
        lemma_decimal_len(n / 10);
    }
}

proof fn lemma_decimal_injective(a: nat, b: nat)
    requires
        decimal(a) == decimal(b),
    ensures
        a == b,
    decreases a,
{
    lemma_decimal_len(a);
    lemma_decimal_len(b);
    if a < 10 && b < 10 {
        assert(decimal(a)[0] == digit(a));
        assert(decimal(b)[0] == digit(b));
    } else if a >= 10 && b >= 10 {
        let da = decimal(a);
        let db = decimal(b);
        assert(da.last() == digit(a % 10));
        assert(db.last() == digit(b % 10));
        assert(da.drop_last() =~= decimal(a / 10));
        assert(db.drop_last() =~= decimal(b / 10));
        lemma_decimal_injective(a / 10, b / 10);
    } else {
        assert(decimal(a).len() != decimal(b).len());
    }
}

/// Distinct indices give distinct candidate names.
pub proof fn lemma_dir_name_injective(app_name: Seq<char>, a: nat, b: nat)
    requires
        dir_name(app_name, a) == dir_name(app_name, b),
    ensures
        a == b,
{
    let pre = app_name + "-"@;
    let suf = "-Root-Dir"@;
    let na = dir_name(app_name, a);
    let nb = dir_name(app_name, b);
    assert(na == pre + decimal(a) + suf);
    assert(nb == pre + decimal(b) + suf);
    assert(decimal(a).len() == decimal(b).len());
    let lo = pre.len() as int;
    let hi = lo + decimal(a).len();
    assert(na.subrange(lo, hi) =~= decimal(a));
    assert(nb.subrange(lo, hi) =~= decimal(b));
    lemma_decimal_injective(a, b);
}

/// If the candidates of all indices below `m` are taken, `m` is at most the
/// number of sub-directories.
proof fn lemma_taken_bound(names: Seq<Seq<char>>, app_name: Seq<char>, m: nat)
    requires
        forall|k: nat| k < m ==> names.contains(#[trigger] dir_name(app_name, k)),
    ensures
        m <= names.len(),
{
    let f = |k: int| choose|j: int| 0 <= j < names.len() && names[j] == dir_name(app_name, k as nat);
    let x = set_int_range(0, m as int);
    let y = x.map(f);
    let z = set_int_range(0, names.len() as int);
    lemma_int_range(0, m as int);
    lemma_int_range(0, names.len() as int);
    assert forall|k: int| x.contains(k) implies 0 <= #[trigger] f(k) < names.len() && names[f(k)]
        == dir_name(app_name, k as nat) by {
        assert(names.contains(dir_name(app_name, k as nat)));
    }
    assert(injective_on(f, x)) by {
        assert forall|k1: int, k2: int|
            x.contains(k1) && x.contains(k2) && #[trigger] f(k1) == #[trigger] f(k2) implies k1 == k2 by {
            lemma_dir_name_injective(app_name, k1 as nat, k2 as nat);
        }
    }
    lemma_map_size(x, y, f);
    assert(y.subset_of(z));
    lemma_len_subset(y, z);
}

/// The one-character string of the decimal digit `d`.
fn digit_str(d: usize) -> (r: &'static str)
    requires
        d < 10,
    ensures
        r@ == seq![digit(d as nat)],
{
    if d == 0 {
        proof { reveal_strlit("0"); }
        "0"
    } else if d == 1 {
        proof { reveal_strlit("1"); }
        "1"
    } else if d == 2 {
        proof { reveal_strlit("2"); }
        "2"
    } else if d == 3 {
        proof { reveal_strlit("3"); }
        "3"
    } else if d == 4 {
        proof { reveal_strlit("4"); }
        "4"
    } else if d == 5 {
        proof { reveal_strlit("5"); }
        "5"
    } else if d == 6 {
        proof { reveal_strlit("6"); }
        "6"
    } else if d == 7 {
        proof { reveal_strlit("7"); }
        "7"
    } else if d == 8 {
        proof { reveal_strlit("8"); }
        "8"
    } else {
        proof { reveal_strlit("9"); }
        "9"
    }
}

/// Decimal notation of `n`.
pub fn decimal_string(n: usize) -> (r: String)
    ensures
        r@ == decimal(n as nat),
    decreases n,
{
    if n < 10 {
        String::from_str(digit_str(n))
    } else {
        let mut s = decimal_string(n / 10);
        let ghost before = s@;
        s.append(digit_str(n % 10));
        assert(s@ =~= before.push(digit((n % 10) as nat)));
        s
    }
}

/// The candidate root-directory name of `app_name` for `index`.
fn candidate_dir_name(app_name: &String, index: usize) -> (r: String)
    ensures
        r@ == dir_name(app_name@, index as nat),
{
    let mut s = app_name.clone();
    s.append("-");
    let digits = decimal_string(index);
    s.append(digits.as_str());
    s.append("-Root-Dir");
    s
}

impl DirectoryListing {
    /// Position of the first sub-directory named `name`, if any.
    pub fn find_sub_directory(&self, name: &String) -> (r: Option<usize>)
        ensures
            match r {
                Some(j) => j < self.sub_directories@.len() && self.sub_directories@[j as int].name@
                    == name@ && forall|k: int| 0 <= k < j ==> self.sub_directories@[k].name@ != name@,
                None => !has_sub_dir(*self, name@),
            },
    {
        let mut j: usize = 0;
        while j < self.sub_directories.len()
            invariant
                j <= self.sub_directories@.len(),
                forall|k: int| 0 <= k < j ==> self.sub_directories@[k].name@ != name@,
            decreases self.sub_directories@.len() - j,
        {
            if self.sub_directories[j].name == *name {
                return Some(j);
            }
            j = j + 1;
        }
        proof {
            if has_sub_dir(*self, name@) {
                let k = choose|k: int| 0 <= k < sub_dir_names(*self).len() && sub_dir_names(*self)[k] == name@;
                assert(self.sub_directories@[k].name@ == name@);
            }
        }
        None
    }

    /// Position of the first file named `name`, if any.
    pub fn find_file(&self, name: &str) -> (r: Option<usize>)
        ensures
            match r {
                Some(j) => is_first_file(*self, name@, j as int),
                None => !has_file(*self, name@),
            },
    {
        let target = name.to_owned();
        let mut j: usize = 0;
        while j < self.files.len()
            invariant
                j <= self.files@.len(),
                target@ == name@,
                forall|k: int| 0 <= k < j ==> self.files@[k].name@ != name@,
            decreases self.files@.len() - j,
        {
            if self.files[j].name == target {
                return Some(j);
            }
            j = j + 1;
        }
        None
    }
}

impl AppHandler {
    /// The root-directory name for an application: `<app_name>-<i>-Root-Dir`
    /// for the smallest `i` that no sub-directory of the listing already has.
    pub fn get_app_dir_name(app_name: &String, directory_listing: &DirectoryListing) -> (r: String)
        ensures
            is_first_free_dir_name(*directory_listing, app_name@, r@),
    {
        let ghost names = sub_dir_names(*directory_listing);
        let n = directory_listing.sub_directories.len();
        let mut index: usize = 0;
        loop
            invariant
                n == directory_listing.sub_directories@.len(),
                index <= directory_listing.sub_directories@.len(),
                names == sub_dir_names(*directory_listing),
                forall|k: nat| k < index ==> names.contains(#[trigger] dir_name(app_name@, k)),
            decreases directory_listing.sub_directories@.len() - index,
        {
            let dir_name_now = candidate_dir_name(app_name, index);
            match directory_listing.find_sub_directory(&dir_name_now) {
                Some(j) => {
                    proof {
                        assert(names[j as int] == directory_listing.sub_directories@[j as int].name@);
                        assert(names.contains(dir_name(app_name@, index as nat)));
                        assert forall|k: nat| k < index + 1 implies names.contains(
                            #[trigger] dir_name(app_name@, k),
                        ) by {
                            if k == index as nat {
                                assert(names[j as int] == dir_name(app_name@, k));
                            }
                        }
                        lemma_taken_bound(names, app_name@, (index + 1) as nat);
                        assert(index + 1 <= n);
                    }
                    index = index + 1;
                },
                None => {
                    return dir_name_now;
                },
            }
        }
    }
}

} // verus!
