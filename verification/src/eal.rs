//! Environment abstraction layer set-up (`rte_eal.h`): splitting the
//! command line between the EAL and the application, and the launch mode
//! of the master lcore.
use vstd::prelude::*;
use vstd::string::*;

verus! {

/// The argument that separates the EAL's arguments from the
/// application's.
pub open spec fn is_separator(arg: String) -> bool {
    arg@ == "--"@
}

/// The index of the first separator at or after `from`, or the number of
/// arguments when there is none.
pub open spec fn separator_from(args: Seq<String>, from: int) -> int
    decreases args.len() - from,
{
    if from >= args.len() {
        args.len() as int
    } else if is_separator(args[from]) {
        from
    } else {
        separator_from(args, from + 1)
    }
}

/// `separator_from` is the first separator at or after `from`.
pub proof fn lemma_separator_from(args: Seq<String>, from: int)
    requires
        0 <= from <= args.len(),
    ensures
        from <= separator_from(args, from) <= args.len(),
        forall|j: int| from <= j < separator_from(args, from) ==> !is_separator(#[trigger] args[j]),
        separator_from(args, from) < args.len() ==> is_separator(args[separator_from(args, from)]),
        forall|j: int| from <= j < separator_from(args, from) ==> (#[trigger] args[j])@ != "--"@,
        separator_from(args, from) < args.len() ==> args[separator_from(args, from)]@ == "--"@,
    decreases args.len() - from,
{
    if from < args.len() && !is_separator(args[from]) {
        lemma_separator_from(args, from + 1);
    }
}

/// The index of the first separator at or after `from`.
fn find_separator(args: &Vec<String>, from: usize) -> (r: usize)
    requires
        from <= args@.len(),
    ensures
        r as int == separator_from(args@, from as int),
        from <= r <= args@.len(),
{
    let sep = String::from_str("--");
    let mut i = from;
    while i < args.len()
        invariant
            from <= i <= args@.len(),
            sep@ == "--"@,
            separator_from(args@, from as int) == separator_from(args@, i as int),
        decreases args@.len() - i,
    {
        if args[i] == sep {
            return i;
        }
        i = i + 1;
    }
    i
}

/// A copy of `args[from..to]`.
fn copy_range(args: &Vec<String>, from: usize, to: usize) -> (r: Vec<String>)
    requires
        from <= to <= args@.len(),
    ensures
        r@ == args@.subrange(from as int, to as int),
{
    let mut r: Vec<String> = Vec::new();
    let mut i = from;
    while i < to
        invariant
            from <= i <= to,
            to <= args@.len(),
            r@ == args@.subrange(from as int, i as int),
        decreases to - i,
    {
        r.push(args[i].clone());
        i = i + 1;
        assert(r@ =~= args@.subrange(from as int, i as int));
    }
    r
}

/// Splits the command line at the separators `--`: the arguments before
/// the first separator go to the EAL; when there is a separator, the
/// arguments after it, up to the next separator (or the end), go to the
/// application.
pub fn split_args(args: &Vec<String>) -> (r: (Vec<String>, Option<Vec<String>>))
    ensures
        r.0@ == args@.subrange(0, separator_from(args@, 0)),
        r.1 is Some <==> separator_from(args@, 0) < args@.len(),
        r.1 matches Some(app) ==> app@ == args@.subrange(
            separator_from(args@, 0) + 1,
            separator_from(args@, separator_from(args@, 0) + 1),
        ),
        forall|i: int| 0 <= i < r.0@.len() ==> !is_separator(#[trigger] r.0@[i]),
        r.1 matches Some(app) ==> forall|i: int|
            0 <= i < app@.len() ==> !is_separator(#[trigger] app@[i]),
        r.0@.len() <= args@.len(),
        r.0@ == args@.take(r.0@.len() as int),
        forall|i: int| 0 <= i < r.0@.len() ==> (#[trigger] args@[i])@ != "--"@,
        r.0@.len() < args@.len() ==> args@[r.0@.len() as int]@ == "--"@,
        r.1 is Some <==> r.0@.len() < args@.len(),
        r.1 matches Some(app) ==> {
            let b = r.0@.len() as int + 1;
            &&& b + app@.len() <= args@.len()
            &&& app@ == args@.subrange(b, b + app@.len())
            &&& forall|i: int| 0 <= i < app@.len() ==> (#[trigger] app@[i])@ != "--"@
            &&& b + app@.len() < args@.len() ==> args@[b + app@.len()]@ == "--"@
        },
{
    proof {
        lemma_separator_from(args@, 0);
        if separator_from(args@, 0) < args@.len() {
            lemma_separator_from(args@, separator_from(args@, 0) + 1);
        }
    }
    let first = find_separator(args, 0);
    let eal_args = copy_range(args, 0, first);
    if first < args.len() {
        let second = find_separator(args, first + 1);
        let app_args = copy_range(args, first + 1, second);
        (eal_args, Some(app_args))
    } else {
        (eal_args, None)
    }
}

/// Whether a launch on all lcores also runs on the master lcore
/// (`enum rte_rmt_call_master_t`).
pub enum RmtCallMaster {
    SkipMaster,
    CallMaster,
}

/// The launch mode for `call_master`.
pub fn call_master_mode(call_master: bool) -> (r: RmtCallMaster)
    ensures
        call_master ==> r is CallMaster,
        !call_master ==> r is SkipMaster,
{
    if call_master == true {
        RmtCallMaster::CallMaster
    } else {
        RmtCallMaster::SkipMaster
    }
}

} // verus!
