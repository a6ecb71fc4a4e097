//! Named groups of patterns and the selection of groups for a run.
use vstd::prelude::*;
use crate::error::{CompmodeError, ErrorView};

verus! {

/// Cargo and rustc: a diagnostic line followed by a `-->` location line.
pub const CARGO_PATTERN: &'static str =
    "(?<type>error|warning): (?<msg>.+)\n *--> *(?<file>.+):(?<line>\\d+):(?<col>\\d+)";

/// gcc and clang: `file:line:col: severity: message` on one line. Not registered as a
/// group; callers may add it to a pattern set of their own.
pub const GCC_PATTERN: &'static str =
    "^(?<file>.+):(?<line>\\d+):(?<col>\\d+): (?<type>error|warning): (?<msg>[^\\n]+)";

/// Names of the pattern groups, in the order they are tried.
pub const GROUPS: [&'static str; 1] = ["cargo"];

/// Selects every group.
pub const SELECT_ALL: &'static str = "all";

/// Selects the groups the command implies, or every group when it implies none.
pub const SELECT_AUTO: &'static str = "auto";

/// Selects the groups implied by `make`.
pub const SELECT_MAKE: &'static str = "make";

/// Number of groups.
pub const GROUP_COUNT: usize = 1;

/// The pattern sources of group `i` of `GROUPS`.
pub open spec fn group_spec(i: int) -> Seq<&'static str> {
    seq![CARGO_PATTERN]
}

/// The patterns of group `index` of `GROUPS`.
pub fn group_patterns(index: usize) -> (r: Vec<&'static str>)
    requires
        index < GROUP_COUNT,
    ensures
        r@ == group_spec(index as int),
{
    let mut r: Vec<&'static str> = Vec::new();
    r.push(CARGO_PATTERN);
    assert(r@ =~= group_spec(index as int));
    r
}

/// Every group, in the order of `GROUPS`.
pub fn all_groups() -> (r: Vec<Vec<&'static str>>)
    ensures
        r@.len() == GROUP_COUNT,
        forall|i: int| 0 <= i < GROUP_COUNT ==> (#[trigger] r@[i])@ == group_spec(i),
{
    let mut r: Vec<Vec<&'static str>> = Vec::new();
    let mut i: usize = 0;
    while i < GROUP_COUNT
        invariant
            i <= GROUP_COUNT,
            r@.len() == i,
            forall|j: int| 0 <= j < i ==> (#[trigger] r@[j])@ == group_spec(j),
        decreases GROUP_COUNT - i,
    {
        r.push(group_patterns(i));
        i = i + 1;
    }
    r
}

/// The lower-case form of `s`, as Unicode defines it.
pub uninterp spec fn lower_of(s: Seq<char>) -> Seq<char>;

/// Relies on `str::to_lowercase`: the result depends on the characters alone.
#[verifier::external_body]
fn lowercase(s: &str) -> (r: String)
    ensures
        r@ == lower_of(s@),
{
    s.to_lowercase()
}

/// Every group index, in order.
pub open spec fn every_group() -> Seq<int> {
    Seq::new(GROUP_COUNT as nat, |i: int| i)
}

/// Group `i` is called `name`.
pub open spec fn name_is(name: Seq<char>) -> spec_fn(int) -> bool {
    |i: int| GROUPS@[i]@ == name
}

/// Indices of the groups whose name is `name`.
pub open spec fn named(name: Seq<char>) -> Seq<int> {
    every_group().filter(name_is(name))
}

/// The groups that the (already lower-cased) request `lowered` asks for, as indices into
/// `GROUPS`.
pub open spec fn requested(lowered: Seq<char>) -> Seq<int> {
    if lowered == SELECT_ALL@ || lowered == SELECT_AUTO@ {
        every_group()
    } else if lowered == SELECT_MAKE@ {
        Seq::empty()
    } else {
        named(lowered)
    }
}

/// The groups selected by `lowered`; `None` where the request resolves to no group.
pub open spec fn selection(lowered: Seq<char>) -> Option<Seq<int>> {
    if requested(lowered).len() == 0 {
        None
    } else {
        Some(requested(lowered))
    }
}

/// `v` holds, in order, the patterns of the groups `sel`.
pub open spec fn holds_groups(v: Seq<Vec<&'static str>>, sel: Seq<int>) -> bool {
    &&& v.len() == sel.len()
    &&& forall|j: int| 0 <= j < v.len() ==> (#[trigger] v[j])@ == group_spec(sel[j])
}

pub open spec fn picked(r: Result<Vec<Vec<&'static str>>, CompmodeError>, lowered: Seq<char>) -> bool {
    match selection(lowered) {
        Some(sel) => r matches Ok(v) && holds_groups(v@, sel),
        None => r matches Err(e) && e@ == (ErrorView::GroupNotFound { group: lowered }),
    }
}

/// Groups implied by the executable that is run. No executable implies a group yet, so
/// `groups` is left as it is.
fn pick_by_executable(exe: &str, groups: &mut Vec<Vec<&'static str>>)
    ensures
        final(groups)@ == old(groups)@,
{
}

fn same_text(a: &str, b: &str) -> (r: bool)
    ensures
        r == (a@ == b@),
{
    String::from_str(a) == String::from_str(b)
}

/// Selects the groups for a request that is already in lower case; a request that
/// resolves to no group is refused.
pub fn pick_group_lowered(lowered: &str, exe: &str) -> (r: Result<
    Vec<Vec<&'static str>>,
    CompmodeError,
>)
    ensures
        picked(r, lowered@),
{
    let mut groups: Vec<Vec<&'static str>> = Vec::new();
    if same_text(lowered, SELECT_ALL) {
        groups = all_groups();
        assert(holds_groups(groups@, every_group()));
    } else if same_text(lowered, SELECT_AUTO) {
        pick_by_executable(exe, &mut groups);
        if groups.len() == 0 {
            groups = all_groups();
        }
        assert(holds_groups(groups@, every_group()));
    } else if same_text(lowered, SELECT_MAKE) {
        pick_by_executable(SELECT_MAKE, &mut groups);
        assert(holds_groups(groups@, Seq::empty()));
    } else {
        let ghost all = every_group();
        assert(all.take(0).filter(name_is(lowered@)) =~= Seq::empty()) by {
            reveal(Seq::filter);
        }
        let mut i: usize = 0;
        while i < GROUP_COUNT
            invariant
                i <= GROUP_COUNT,
                holds_groups(groups@, all.take(i as int).filter(name_is(lowered@))),
                all == every_group(),
            decreases GROUP_COUNT - i,
        {
            proof {
                reveal(Seq::filter);
                assert(all.take(i + 1).drop_last() =~= all.take(i as int));
                assert(all.take(i + 1).last() == i as int);
            }
            if same_text(GROUPS[i], lowered) {
                groups.push(group_patterns(i));
            }
            i = i + 1;
        }
        assert(all.take(GROUP_COUNT as int) =~= all);
    }
    if groups.len() == 0 {
        return Err(CompmodeError::GroupNotFound { group: String::from_str(lowered) });
    }
    Ok(groups)
}

/// Selects the pattern groups for a request: "all", "auto", "make" or a group name, in
/// any case.
pub fn pick_group(group: &str, exe: &str) -> (r: Result<Vec<Vec<&'static str>>, CompmodeError>)
    ensures
        picked(r, lower_of(group@)),
{
    let lowered = lowercase(group);
    pick_group_lowered(lowered.as_str(), exe)
}

} // verus!
