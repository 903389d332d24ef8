//! Where the scheduler keeps its files, below the user's home directory.

use vstd::prelude::*;

verus! {

/// `name` below `base`, as paths are joined: an absolute name stands alone.
pub open spec fn joined(base: Seq<char>, name: Seq<char>) -> Seq<char> {
    if name.len() > 0 && name[0] == '/' {
        name
    } else if base.len() == 0 || base.last() == '/' {
        base + name
    } else {
        base + "/"@ + name
    }
}

/// The home directory: `HOME`, else `USERPROFILE`, else `/tmp`.
pub open spec fn home_of(home: Option<Seq<char>>, user_profile: Option<Seq<char>>) -> Seq<char> {
    match home {
        Some(h) => h,
        None => match user_profile {
            Some(p) => p,
            None => "/tmp"@,
        },
    }
}

/// The directory of the scheduler's files.
pub open spec fn state_dir_of(home: Seq<char>) -> Seq<char> {
    joined(home, ".coresched"@)
}

/// The directory of the jobs' files.
pub open spec fn jobs_dir_of(home: Seq<char>) -> Seq<char> {
    joined(state_dir_of(home), "jobs"@)
}

fn join(base: &str, name: &str) -> (r: String)
    ensures
        r@ == joined(base@, name@),
{
    let n: usize = name.unicode_len();
    if n > 0 && name.get_char(0) == '/' {
        return name.to_owned();
    }
    let b: usize = base.unicode_len();
    let mut r: String = base.to_owned();
    if b > 0 && base.get_char(b - 1) != '/' {
        r.append("/");
    }
    r.append(name);
    r
}

/// The home directory, from the two environment variables that may name it.
pub fn home_dir(home: Option<String>, user_profile: Option<String>) -> (r: String)
    ensures
        r@ == home_of(crate::state::text_of(home), crate::state::text_of(user_profile)),
{
    match home {
        Some(h) => h,
        None => match user_profile {
            Some(p) => p,
            None => "/tmp".to_owned(),
        },
    }
}

/// The directory of the scheduler's files.
pub fn state_dir(home: &str) -> (r: String)
    ensures
        r@ == state_dir_of(home@),
{
    join(home, ".coresched")
}

/// The file that holds the state.
pub fn state_path(home: &str) -> (r: String)
    ensures
        r@ == joined(state_dir_of(home@), "state.json"@),
{
    let dir = state_dir(home);
    join(dir.as_str(), "state.json")
}

/// The file whose lock guards the state.
pub fn lock_path(home: &str) -> (r: String)
    ensures
        r@ == joined(state_dir_of(home@), "state.lock"@),
{
    let dir = state_dir(home);
    join(dir.as_str(), "state.lock")
}

/// The directory of the jobs' files.
pub fn jobs_dir(home: &str) -> (r: String)
    ensures
        r@ == jobs_dir_of(home@),
{
    let dir = state_dir(home);
    join(dir.as_str(), "jobs")
}

/// The file that a job's output goes to.
pub fn job_output_path(home: &str, jid: &str) -> (r: String)
    ensures
        r@ == joined(jobs_dir_of(home@), jid@ + ".out"@),
{
    let dir = jobs_dir(home);
    let mut name: String = jid.to_owned();
    name.append(".out");
    join(dir.as_str(), name.as_str())
}

/// The file that a submitted script may update with its progress, beside the job's output.
pub fn job_progress_path(home: &str, jid: &str) -> (r: String)
    ensures
        r@ == joined(jobs_dir_of(home@), jid@ + ".progress.json"@),
{
    let dir = jobs_dir(home);
    let mut name: String = jid.to_owned();
    name.append(".progress.json");
    join(dir.as_str(), name.as_str())
}

proof fn same_file_same_name(dir: Seq<char>, a: Seq<char>, b: Seq<char>, suffix: Seq<char>)
    requires
        a.len() > 0 && a[0] != '/',
        b.len() > 0 && b[0] != '/',
        joined(dir, a + suffix) == joined(dir, b + suffix),
    ensures
        a == b,
{
    let base = if dir.len() == 0 || dir.last() == '/' {
        dir
    } else {
        dir + "/"@
    };
    let pa = joined(dir, a + suffix);
    let pb = joined(dir, b + suffix);
    assert((a + suffix)[0] == a[0]);
    assert((b + suffix)[0] == b[0]);
    assert(pa =~= base + (a + suffix));
    assert(pb =~= base + (b + suffix));
    assert(pa.len() == base.len() + a.len() + suffix.len());
    assert(pb.len() == base.len() + b.len() + suffix.len());
    assert(pa.subrange(base.len() as int, (base.len() + a.len()) as int) =~= a);
    assert(pb.subrange(base.len() as int, (base.len() + b.len()) as int) =~= b);
}

/// Jobs whose IDs hold no slash at their front have different output files.
pub proof fn output_files_differ(home: Seq<char>, a: Seq<char>, b: Seq<char>)
    requires
        a.len() > 0 && a[0] != '/',
        b.len() > 0 && b[0] != '/',
        joined(jobs_dir_of(home), a + ".out"@) == joined(jobs_dir_of(home), b + ".out"@),
    ensures
        a == b,
{
    same_file_same_name(jobs_dir_of(home), a, b, ".out"@);
}

/// Jobs whose IDs hold no slash at their front have different progress files.
pub proof fn progress_files_differ(home: Seq<char>, a: Seq<char>, b: Seq<char>)
    requires
        a.len() > 0 && a[0] != '/',
        b.len() > 0 && b[0] != '/',
        joined(jobs_dir_of(home), a + ".progress.json"@) == joined(
            jobs_dir_of(home),
            b + ".progress.json"@,
        ),
    ensures
        a == b,
{
    same_file_same_name(jobs_dir_of(home), a, b, ".progress.json"@);
}

/// No job's progress file is the output file of a job.
pub proof fn progress_files_are_no_outputs(home: Seq<char>, a: Seq<char>, b: Seq<char>)
    ensures
        joined(jobs_dir_of(home), a + ".progress.json"@) != joined(
            jobs_dir_of(home),
            b + ".out"@,
        ),
{
    reveal_strlit(".progress.json");
    reveal_strlit(".out");
    let dir = jobs_dir_of(home);
    assert((a + ".progress.json"@).last() == 'n');
    assert((b + ".out"@).last() == 't');
    assert(joined(dir, a + ".progress.json"@).last() == 'n');
    assert(joined(dir, b + ".out"@).last() == 't');
}

} // verus!
