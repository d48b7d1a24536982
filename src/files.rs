use vstd::prelude::*;

verus! {

/// The directory under which each service keeps its logs.
pub const LOG_DIR: &'static str = "/var/log/socklog/";

/// The file that a service is writing to.
pub const CURRENT_FILE: &'static str = "/current";

/// The files that a service has rotated out.
pub const ROTATED_FILES: &'static str = "/*.[su]";

/// The command that follows files: it starts so, then lists the files.
pub const FOLLOW_PREFIX: &'static str = "tail -Fq -n0 ";

/// What follows the files in the command, to drop repeated lines.
pub const FOLLOW_SUFFIX: &'static str = " | uniq";

/// What stands after each file in the command.
pub const SEPARATOR: &'static str = " ";

/// Whether glob's `Pattern::new` accepts the whole text as a pattern.
pub uninterp spec fn glob_pattern_valid(pattern: Seq<char>) -> bool;

/// Relies on glob's `Pattern::new`, which accepts or refuses a pattern by
/// its text alone. `glob` makes this check on the whole text before it reads
/// any directory (and then checks each path component as well).
#[verifier::external_body]
fn pattern_valid(pattern: &str) -> (r: bool)
    ensures
        r == glob_pattern_valid(pattern@),
{
    glob::Pattern::new(pattern).is_ok()
}

/// The patterns for one service: its current file, and unless only that is
/// asked for, its rotated files.
pub open spec fn service_patterns(service: Seq<char>, only_current: bool) -> Seq<Seq<char>> {
    if only_current {
        seq![LOG_DIR@ + service + CURRENT_FILE@]
    } else {
        seq![LOG_DIR@ + service + CURRENT_FILE@, LOG_DIR@ + service + ROTATED_FILES@]
    }
}

/// The patterns for the services, service by service.
pub open spec fn patterns_of(services: Seq<String>, only_current: bool) -> Seq<Seq<char>>
    decreases services.len(),
{
    if services.len() == 0 {
        Seq::empty()
    } else {
        patterns_of(services.drop_last(), only_current) + service_patterns(
            services.last()@,
            only_current,
        )
    }
}

/// The glob patterns of the log files of the services, in order.
pub fn glob_patterns(services: &Vec<String>, only_current: bool) -> (r: Vec<String>)
    ensures
        r@.map_values(|p: String| p@) == patterns_of(services@, only_current),
{
    let mut out: Vec<String> = Vec::new();
    let mut i: usize = 0;
    while i < services.len()
        invariant
            i <= services@.len(),
            out@.map_values(|p: String| p@) == patterns_of(services@.subrange(0, i as int), only_current),
        decreases services@.len() - i,
    {
        let base = String::from_str(LOG_DIR).concat(services[i].as_str());
        let current = base.clone().concat(CURRENT_FILE);
        let ghost before = out@.map_values(|p: String| p@);
        out.push(current);
        if !only_current {
            out.push(base.concat(ROTATED_FILES));
        }
        proof {
            let s = services@.subrange(0, i + 1);
            assert(s.drop_last() =~= services@.subrange(0, i as int));
            assert(s.last() == services@[i as int]);
            assert(out@.map_values(|p: String| p@) =~= before + service_patterns(
                services@[i as int]@,
                only_current,
            ));
        }
        i = i + 1;
    }
    assert(services@.subrange(0, services@.len() as int) =~= services@);
    out
}

/// The index of the first pattern that glob refuses, if any.
pub fn find_invalid_pattern(patterns: &Vec<String>) -> (r: Option<usize>)
    ensures
        r is None <==> forall|i: int| 0 <= i < patterns@.len() ==> glob_pattern_valid(#[trigger] patterns@[i]@),
        r matches Some(i) ==> i < patterns@.len() && !glob_pattern_valid(patterns@[i as int]@)
            && forall|j: int| 0 <= j < i ==> glob_pattern_valid(#[trigger] patterns@[j]@),
{
    let mut i: usize = 0;
    while i < patterns.len()
        invariant
            i <= patterns@.len(),
            forall|j: int| 0 <= j < i ==> glob_pattern_valid(#[trigger] patterns@[j]@),
        decreases patterns@.len() - i,
    {
        if !pattern_valid(patterns[i].as_str()) {
            return Some(i);
        }
        i = i + 1;
    }
    None
}

/// Whether `Pattern::new` accepts every pattern of the services.
pub open spec fn all_patterns_valid(services: Seq<String>, only_current: bool) -> bool {
    forall|i: int|
        0 <= i < patterns_of(services, only_current).len() ==> glob_pattern_valid(
            #[trigger] patterns_of(services, only_current)[i],
        )
}

/// The glob patterns of the log files of the services, each of which
/// `Pattern::new` accepts.
pub fn file_patterns(services: &Vec<String>, only_current: bool) -> (r: Vec<String>)
    requires
        all_patterns_valid(services@, only_current),
    ensures
        r@.map_values(|p: String| p@) == patterns_of(services@, only_current),
{
    glob_patterns(services, only_current)
}

/// The glob patterns of the log files of the services where `Pattern::new`
/// accepts each of them; otherwise the first that it refuses.
pub fn checked_file_patterns(services: &Vec<String>, only_current: bool) -> (r: Result<
    Vec<String>,
    String,
>)
    ensures
        r is Ok <==> all_patterns_valid(services@, only_current),
        r matches Ok(v) ==> v@.map_values(|p: String| p@) == patterns_of(services@, only_current),
        r matches Err(p) ==> exists|i: int|
            0 <= i < patterns_of(services@, only_current).len() && #[trigger] patterns_of(
                services@,
                only_current,
            )[i] == p@ && !glob_pattern_valid(p@) && forall|j: int|
                0 <= j < i ==> glob_pattern_valid(#[trigger] patterns_of(services@, only_current)[j]),
{
    let patterns = glob_patterns(services, only_current);
    let ghost ps = patterns_of(services@, only_current);
    assert(forall|i: int| 0 <= i < patterns@.len() ==> #[trigger] patterns@[i]@ == ps[i]) by {
        assert forall|i: int| 0 <= i < patterns@.len() implies #[trigger] patterns@[i]@ == ps[i] by {
            assert(patterns@.map_values(|p: String| p@)[i] == patterns@[i]@);
        }
    }
    match find_invalid_pattern(&patterns) {
        Some(i) => {
            let bad = patterns[i].clone();
            assert(ps[i as int] == bad@);
            Err(bad)
        },
        None => {
            assert forall|i: int| 0 <= i < ps.len() implies glob_pattern_valid(#[trigger] ps[i]) by {
                assert(patterns@[i]@ == ps[i]);
            }
            Ok(file_patterns(services, only_current))
        },
    }
}

/// The files joined, each followed by a space.
pub open spec fn joined(files: Seq<String>) -> Seq<char>
    decreases files.len(),
{
    if files.len() == 0 {
        Seq::empty()
    } else {
        joined(files.drop_last()) + files.last()@ + SEPARATOR@
    }
}

/// The shell command that follows the files from their current end and
/// drops repeated lines.
pub fn follow_command(files: &Vec<String>) -> (r: String)
    ensures
        r@ == FOLLOW_PREFIX@ + joined(files@) + FOLLOW_SUFFIX@,
{
    let mut cmd = String::from_str(FOLLOW_PREFIX);
    let mut i: usize = 0;
    assert(files@.subrange(0, 0) =~= Seq::<String>::empty());
    while i < files.len()
        invariant
            i <= files@.len(),
            cmd@ == FOLLOW_PREFIX@ + joined(files@.subrange(0, i as int)),
        decreases files@.len() - i,
    {
        cmd.append(files[i].as_str());
        cmd.append(SEPARATOR);
        proof {
            let s = files@.subrange(0, i + 1);
            assert(s.drop_last() =~= files@.subrange(0, i as int));
            assert(s.last() == files@[i as int]);
            assert(cmd@ =~= FOLLOW_PREFIX@ + joined(s));
        }
        i = i + 1;
    }
    assert(files@.subrange(0, files@.len() as int) =~= files@);
    cmd.append(FOLLOW_SUFFIX);
    cmd
}

} // verus!
