//! The filesystem gateway's decision logic: which datasets a task works
//! on, what its snapshots are called, and which of them still have to be
//! created. The blocking calls into the filesystem engine itself stay
//! outside the library; dataset filtering calls the `regex` crate through
//! the trusted items below.

use vstd::prelude::*;
use vstd::string::StringExecFns;

verus! {

/// Whether `pattern` is a valid regular expression (compiles with the
/// crate's default limits). A function of the pattern alone.
pub uninterp spec fn regex_ok(pattern: Seq<char>) -> bool;

/// Whether `text` matches the regular expression `pattern`. A function of
/// the two strings alone.
pub uninterp spec fn regex_matches(pattern: Seq<char>, text: Seq<char>) -> bool;

/// Relies on `regex::Regex::new`: whether a pattern compiles depends on
/// the pattern alone.
#[verifier::external_body]
fn regex_compiles(pattern: &str) -> (r: bool)
    ensures
        r == regex_ok(pattern@),
{
    regex::Regex::new(pattern).is_ok()
}

/// Relies on `regex::Regex::new` and `regex::Regex::is_match`: compiling
/// depends on the pattern alone, and whether a haystack matches depends
/// on the pattern and the haystack alone.
#[verifier::external_body]
fn regex_match(pattern: &str, text: &str) -> (r: Option<bool>)
    ensures
        r is Some <==> regex_ok(pattern@),
        match r {
            Option::Some(b) => b == regex_matches(pattern@, text@),
            Option::None => !regex_ok(pattern@),
        },
{
    match regex::Regex::new(pattern) {
        Ok(re) => Option::Some(re.is_match(text)),
        Err(_) => Option::None,
    }
}

/// The datasets whose path matches `filter`, in input order.
pub open spec fn matching_datasets(filter: Seq<char>, datasets: Seq<String>) -> Seq<String>
    decreases datasets.len(),
{
    if datasets.len() == 0 {
        Seq::empty()
    } else {
        let rest = matching_datasets(filter, datasets.drop_first());
        if regex_matches(filter, datasets[0]@) {
            seq![datasets[0]] + rest
        } else {
            rest
        }
    }
}

/// Select the datasets a task works on: the filesystems, then the
/// volumes, keeping those whose path matches `filter`. An invalid filter
/// selects nothing.
pub fn get_datasets_for_task(
    filesystems: Vec<String>,
    volumes: Vec<String>,
    filter: &str,
) -> (r: Vec<String>)
    ensures
        regex_ok(filter@) ==> r@ == matching_datasets(filter@, filesystems@ + volumes@),
        !regex_ok(filter@) ==> r@ == Seq::<String>::empty(),
{
    if !regex_compiles(filter) {
        return Vec::new();
    }
    let mut rest = filesystems;
    let mut volumes = volumes;
    rest.append(&mut volumes);
    let ghost orig = rest@;
    let mut out: Vec<String> = Vec::new();
    proof {
        assert(out@ + matching_datasets(filter@, rest@) =~= matching_datasets(filter@, orig));
    }
    while rest.len() > 0
        invariant
            regex_ok(filter@),
            out@ + matching_datasets(filter@, rest@) == matching_datasets(filter@, orig),
        decreases rest.len(),
    {
        let ghost pre = rest@;
        let entry = rest.remove(0);
        proof {
            assert(pre.drop_first() =~= rest@);
        }
        let ghost old_out = out@;
        match regex_match(filter, entry.as_str()) {
            Option::Some(true) => {
                out.push(entry);
                proof {
                    assert(old_out + (seq![pre[0]] + matching_datasets(filter@, rest@)) =~= out@
                        + matching_datasets(filter@, rest@));
                }
            },
            _ => {},
        }
    }
    proof {
        assert(matching_datasets(filter@, rest@) == Seq::<String>::empty());
        assert(out@ + matching_datasets(filter@, rest@) =~= out@);
    }
    out
}

/// The full snapshot name `dataset@label`.
pub open spec fn snapshot_name_seq(dataset: Seq<char>, label: Seq<char>) -> Seq<char> {
    dataset + "@"@ + label
}

/// Join a dataset path and a label into the snapshot name
/// `dataset@label`.
pub fn snapshot_full_name(dataset: &str, label: &str) -> (r: String)
    ensures
        r@ == snapshot_name_seq(dataset@, label@),
{
    let r = String::from_str(dataset).concat("@").concat(label);
    proof {
        assert(r@ =~= snapshot_name_seq(dataset@, label@));
    }
    r
}

/// The snapshot names of one run: every dataset under the same label.
pub fn snapshot_names(datasets: &Vec<String>, label: &str) -> (r: Vec<String>)
    ensures
        r@.len() == datasets@.len(),
        forall|i: int|
            0 <= i < r@.len() ==> r@[i]@ == snapshot_name_seq(datasets@[i]@, label@),
{
    let n = datasets.len();
    let mut out: Vec<String> = Vec::new();
    let mut i: usize = 0;
    while i < n
        invariant
            i <= n,
            n == datasets@.len(),
            out@.len() == i,
            forall|j: int| 0 <= j < i ==> out@[j]@ == snapshot_name_seq(datasets@[j]@, label@),
        decreases n - i,
    {
        out.push(snapshot_full_name(datasets[i].as_str(), label));
        i = i + 1;
    }
    out
}

/// Of `names`, those whose existence flag is off: the snapshots that
/// still have to be created.
pub open spec fn missing_snapshots(names: Seq<String>, exists: Seq<bool>) -> Seq<String>
    decreases names.len(),
{
    if names.len() == 0 || exists.len() == 0 {
        Seq::empty()
    } else {
        let rest = missing_snapshots(names.drop_first(), exists.drop_first());
        if exists[0] {
            rest
        } else {
            seq![names[0]] + rest
        }
    }
}

/// Keep the snapshots that do not exist yet; the ones already present
/// are skipped, which makes snapshot creation idempotent per label.
pub fn snapshots_to_create(names: Vec<String>, exists: &Vec<bool>) -> (r: Vec<String>)
    requires
        names@.len() == exists@.len(),
    ensures
        r@ == missing_snapshots(names@, exists@),
{
    let ghost orig_names = names@;
    let ghost orig_exists = exists@;
    let mut rest = names;
    let mut out: Vec<String> = Vec::new();
    let n = exists.len();
    let mut i: usize = 0;
    proof {
        assert(orig_exists.skip(0) =~= orig_exists);
        assert(out@ + missing_snapshots(rest@, orig_exists.skip(0)) =~= missing_snapshots(
            orig_names,
            orig_exists,
        ));
    }
    while rest.len() > 0
        invariant
            i + rest@.len() == n,
            n == orig_exists.len(),
            orig_exists == exists@,
            out@ + missing_snapshots(rest@, orig_exists.skip(i as int)) == missing_snapshots(
                orig_names,
                orig_exists,
            ),
        decreases rest.len(),
    {
        let ghost pre = rest@;
        let ghost pre_exists = orig_exists.skip(i as int);
        let entry = rest.remove(0);
        proof {
            assert(pre.drop_first() =~= rest@);
            assert(pre_exists.drop_first() =~= orig_exists.skip(i + 1));
            assert(pre_exists[0] == orig_exists[i as int]);
        }
        let ghost old_out = out@;
        if !exists[i] {
            out.push(entry);
            proof {
                assert(old_out + (seq![pre[0]] + missing_snapshots(rest@, orig_exists.skip(i + 1)))
                    =~= out@ + missing_snapshots(rest@, orig_exists.skip(i + 1)));
            }
        }
        i = i + 1;
    }
    proof {
        assert(missing_snapshots(rest@, orig_exists.skip(i as int)) == Seq::<String>::empty());
        assert(out@ + missing_snapshots(rest@, orig_exists.skip(i as int)) =~= out@);
    }
    out
}

/// Snapshots that all exist already leave nothing to create: running the
/// snapshot step twice under one label is a no-op the second time.
pub proof fn lemma_existing_snapshots_skipped(names: Seq<String>, exists: Seq<bool>)
    requires
        names.len() == exists.len(),
        forall|i: int| 0 <= i < exists.len() ==> exists[i],
    ensures
        missing_snapshots(names, exists) == Seq::<String>::empty(),
    decreases names.len(),
{
    if names.len() == 0 {
    } else {
        assert(exists[0]);
        lemma_existing_snapshots_skipped(names.drop_first(), exists.drop_first());
    }
}

} // verus!
