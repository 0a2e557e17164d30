//! The storage provisioner's text surface: the paths it acts on and the
//! exact readings of the command output it depends on — the loop-device
//! table, the subvolume listing, the quota table, and the block-counted
//! fallback sizes.
//!
//! The privileged commands themselves run outside this crate; what stands
//! here decides what their answers mean.

use vstd::prelude::*;

use crate::text::{
    chars_of, digit_run_end, digits_value, ends_with_chars, is_digit_char, parse_u64, split_lines,
    split_tokens, spec_contains_seq, spec_ends_with, spec_lines, spec_tokens, string_from_chars,
    contains_chars,
};

verus! {

/// What the quota table reports of one subvolume.
#[derive(Debug, Clone)]
pub struct SubvolumeInfo {
    /// The subvolume name.
    pub name: String,
    /// Its path under the mount point.
    pub path: String,
    /// The referenced (logical) size in bytes.
    pub referenced_size: u64,
    /// The exclusive (unshared) size in bytes.
    pub exclusive_size: u64,
}

/// The paths and size of one project's backing image and mount.
#[derive(Debug, Clone)]
pub struct BtrfsOperator {
    /// The backing image file, `<project_root>/btrfs.img`.
    pub img_path: String,
    /// The project's mount point, `<mount_root>/<project_name>`.
    pub mount_point: String,
    /// The image size reserved for the project, in bytes.
    pub size: u64,
}

/// The sparse image size reserved per project: one binary terabyte.
pub const PROJECT_IMAGE_SIZE: u64 = 1099511627776;

impl BtrfsOperator {
    /// Derive the image path and mount point of one project.
    pub fn new(project_name: &str, project_root: &str, mount_root: &str) -> (r: BtrfsOperator)
        ensures
            r.img_path@ == project_root@ + "/btrfs.img"@,
            r.mount_point@ == mount_root@ + "/"@ + project_name@,
            r.size == PROJECT_IMAGE_SIZE,
    {
        let mut img: Vec<char> = chars_of(project_root);
        let mut img_tail = chars_of("/btrfs.img");
        img.append(&mut img_tail);
        let mut mp: Vec<char> = chars_of(mount_root);
        mp.push('/');
        let mut mp_tail = chars_of(project_name);
        mp.append(&mut mp_tail);
        proof {
            reveal_strlit("/");
            assert("/"@ =~= seq!['/']);
            assert(mp@ =~= mount_root@ + "/"@ + project_name@);
        }
        BtrfsOperator {
            img_path: string_from_chars(&img),
            mount_point: string_from_chars(&mp),
            size: PROJECT_IMAGE_SIZE,
        }
    }

    /// Keep the per-subvolume readings that succeeded, in order.
    pub fn get_all_subvolumes_info(&self, results: Vec<Option<SubvolumeInfo>>) -> (r: Vec<
        SubvolumeInfo,
    >)
        ensures
            r@ == spec_present(results@),
    {
        let ghost all = results@;
        let mut rest = results;
        let mut r: Vec<SubvolumeInfo> = Vec::new();
        while rest.len() > 0
            invariant
                r@ + spec_present(rest@) == spec_present(all),
            decreases rest@.len(),
        {
            let ghost before = rest@;
            let entry = rest.remove(0);
            proof {
                assert(rest@ =~= before.drop_first());
            }
            match entry {
                Some(info) => {
                    r.push(info);
                    proof {
                        assert(r@ + spec_present(rest@) =~= spec_present(all));
                    }
                },
                None => {
                    proof {
                        assert(r@ + spec_present(rest@) =~= spec_present(all));
                    }
                },
            }
        }
        proof {
            assert(spec_present(rest@) =~= Seq::<SubvolumeInfo>::empty());
            assert(r@ =~= spec_present(all));
        }
        r
    }
}

/// The readings that succeeded, in order.
pub open spec fn spec_present(s: Seq<Option<SubvolumeInfo>>) -> Seq<SubvolumeInfo>
    decreases s.len(),
{
    if s.len() == 0 {
        Seq::empty()
    } else {
        match s[0] {
            Some(info) => seq![info] + spec_present(s.drop_first()),
            None => spec_present(s.drop_first()),
        }
    }
}

/// Whether every character of the token is a decimal digit, and there is
/// at least one.
pub open spec fn all_digits(t: Seq<char>) -> bool {
    t.len() > 0 && forall|k: int| 0 <= k < t.len() ==> is_digit_char(#[trigger] t[k])
}

/// Whether a line of the loop-device table names a device over the target
/// back-file: eight whitespace-separated columns — name, four numbers, the
/// back-file, two numbers — whose back-file ends with the target path.
pub open spec fn line_names_device(line: Seq<char>, target: Seq<char>) -> bool {
    let ts = spec_tokens(line);
    &&& ts.len() == 8
    &&& all_digits(ts[1])
    &&& all_digits(ts[2])
    &&& all_digits(ts[3])
    &&& all_digits(ts[4])
    &&& all_digits(ts[6])
    &&& all_digits(ts[7])
    &&& spec_ends_with(ts[5], target)
}

/// The device column of the first matching line, headers skipped.
pub open spec fn spec_find_device(lines: Seq<Seq<char>>, target: Seq<char>) -> Option<Seq<char>>
    decreases lines.len(),
{
    if lines.len() == 0 {
        None
    } else if line_names_device(lines[0], target) {
        Some(spec_tokens(lines[0])[0])
    } else {
        spec_find_device(lines.drop_first(), target)
    }
}

/// Search the loop-device listing for the device whose back-file ends with
/// `target_path`.  The first line is the header and is skipped; an
/// unrecognized line never matches.
pub fn find_device_by_path(listing: &str, target_path: &str) -> (r: Option<String>)
    ensures
        match r {
            Some(device) => spec_find_device(
                spec_lines(listing@).skip(1),
                target_path@,
            ) matches Some(d) && device@ == d,
            None => spec_find_device(spec_lines(listing@).skip(1), target_path@) is None || spec_lines(
                listing@,
            ).len() == 0,
        },
{
    let text = chars_of(listing);
    let target = chars_of(target_path);
    let lines = split_lines(&text);
    let ghost lv = lines.deep_view();
    if lines.len() == 0 {
        return None;
    }
    let mut i: usize = 1;
    proof {
        assert(lv.skip(1).skip(0) =~= lv.skip(1));
    }
    let n = lines.len();
    while i < n
        invariant
            n == lv.len(),
            1 <= i <= n,
            lines.deep_view() == lv,
            target@ == target_path@,
            lv == spec_lines(listing@),
            spec_find_device(lv.skip(1), target@) == spec_find_device(lv.skip(i as int), target@),
        decreases n - i,
    {
        proof {
            crate::text::lemma_lines_entry(lines, i as int);
            assert(lv.skip(i as int)[0] == lv[i as int]);
            assert(lv.skip(i as int).drop_first() =~= lv.skip(i as int + 1));
        }
        let toks = split_tokens(&lines[i]);
        let ghost tv = spec_tokens(lv[i as int]);
        if toks.len() == 8 {
            proof {
                assert(toks.deep_view() == tv);
                crate::text::lemma_lines_entry(toks, 0);
                crate::text::lemma_lines_entry(toks, 1);
                crate::text::lemma_lines_entry(toks, 2);
                crate::text::lemma_lines_entry(toks, 3);
                crate::text::lemma_lines_entry(toks, 4);
                crate::text::lemma_lines_entry(toks, 5);
                crate::text::lemma_lines_entry(toks, 6);
                crate::text::lemma_lines_entry(toks, 7);
            }
            let numeric = token_all_digits(&toks[1]) && token_all_digits(&toks[2])
                && token_all_digits(&toks[3]) && token_all_digits(&toks[4]) && token_all_digits(
                &toks[6],
            ) && token_all_digits(&toks[7]);
            if numeric && ends_with_chars(&toks[5], &target) {
                proof {
                    assert(line_names_device(lv[i as int], target@));
                }
                return Some(string_from_chars(&toks[0]));
            }
            proof {
                assert(!line_names_device(lv[i as int], target@));
            }
        } else {
            proof {
                assert(spec_tokens(lv[i as int]).len() != 8);
            }
        }
        i += 1;
    }
    proof {
        assert(lv.skip(n as int) =~= Seq::<Seq<char>>::empty());
    }
    None
}

/// Whether the token is a run of decimal digits.
fn token_all_digits(t: &Vec<char>) -> (r: bool)
    ensures
        r == all_digits(t@),
{
    if t.len() == 0 {
        return false;
    }
    let mut k: usize = 0;
    while k < t.len()
        invariant
            k <= t@.len(),
            forall|j: int| 0 <= j < k ==> is_digit_char(#[trigger] t@[j]),
        decreases t@.len() - k,
    {
        let c = t[k];
        if !crate::text::is_digit(c) {
            return false;
        }
        k += 1;
    }
    true
}

/// The last token of each line that has one: how the subvolume listing
/// names its subvolumes.
pub open spec fn spec_subvol_names(lines: Seq<Seq<char>>) -> Seq<Seq<char>>
    decreases lines.len(),
{
    if lines.len() == 0 {
        Seq::empty()
    } else {
        let rest = spec_subvol_names(lines.drop_first());
        let ts = spec_tokens(lines[0]);
        if ts.len() > 0 {
            seq![ts.last()] + rest
        } else {
            rest
        }
    }
}

/// Read the subvolume names out of the `subvolume list` output: the final
/// column of each line.
pub fn parse_subvolume_list(listing: &str) -> (r: Vec<String>)
    ensures
        r.deep_view().len() == spec_subvol_names(spec_lines(listing@)).len(),
        forall|i: int|
            0 <= i < r.deep_view().len() ==> (#[trigger] r.deep_view()[i]) == spec_subvol_names(
                spec_lines(listing@),
            )[i],
{
    let text = chars_of(listing);
    let lines = split_lines(&text);
    let ghost lv = lines.deep_view();
    let mut r: Vec<String> = Vec::new();
    let mut i: usize = 0;
    proof {
        assert(lv.skip(0) =~= lv);
    }
    let n = lines.len();
    while i < n
        invariant
            n == lv.len(),
            i <= n,
            lines.deep_view() == lv,
            lv == spec_lines(listing@),
            r.deep_view() + spec_subvol_names(lv.skip(i as int)) == spec_subvol_names(lv),
        decreases n - i,
    {
        proof {
            crate::text::lemma_lines_entry(lines, i as int);
            assert(lv.skip(i as int)[0] == lv[i as int]);
            assert(lv.skip(i as int).drop_first() =~= lv.skip(i as int + 1));
        }
        let toks = split_tokens(&lines[i]);
        if toks.len() > 0 {
            proof {
                assert(toks.deep_view() == spec_tokens(lv[i as int]));
                crate::text::lemma_lines_entry(toks, toks@.len() - 1);
                assert(toks@[toks@.len() - 1]@ == spec_tokens(lv[i as int]).last());
            }
            let name = string_from_chars(&toks[toks.len() - 1]);
            r.push(name);
            proof {
                assert(r.deep_view() + spec_subvol_names(lv.skip(i as int + 1)) =~~= spec_subvol_names(
                    lv,
                ));
            }
        } else {
            proof {
                assert(r.deep_view() + spec_subvol_names(lv.skip(i as int + 1)) =~~= spec_subvol_names(
                    lv,
                ));
            }
        }
        i += 1;
    }
    proof {
        assert(lv.skip(n as int) =~= Seq::<Seq<char>>::empty());
        assert(r.deep_view() =~~= spec_subvol_names(lv));
    }
    r
}

/// The number the block-count tools print first: the first token when it
/// is a whole decimal number that fits, and zero otherwise.
pub open spec fn spec_leading_number(s: Seq<char>) -> int {
    let ts = spec_tokens(s);
    if ts.len() > 0 && all_digits(ts[0]) && digits_value(ts[0]) <= u64::MAX {
        digits_value(ts[0])
    } else {
        0
    }
}

/// Read the size that `du -sb` (or a similar tool) printed: its first
/// whitespace-separated token, taken as zero when it is not a number.
pub fn parse_leading_number(output: &str) -> (r: u64)
    ensures
        r as int == spec_leading_number(output@),
{
    let text = chars_of(output);
    let toks = split_tokens(&text);
    if toks.len() == 0 {
        return 0;
    }
    proof {
        crate::text::lemma_lines_entry(toks, 0);
        assert(toks@[0]@ == spec_tokens(output@)[0]);
    }
    parse_token_number(&toks[0])
}

/// The value of a token when it is a whole decimal number that fits, and
/// zero otherwise.
fn parse_token_number(t: &Vec<char>) -> (r: u64)
    ensures
        r as int == if all_digits(t@) && digits_value(t@) <= u64::MAX {
            digits_value(t@)
        } else {
            0
        },
{
    proof {
        crate::text::lemma_digit_run_end(t@, 0);
    }
    match parse_u64(t, 0) {
        Some(p) => {
            if p.1 == t.len() {
                proof {
                    assert(t@.subrange(0, t@.len() as int) =~= t@);
                }
                p.0
            } else {
                proof {
                    assert(!is_digit_char(t@[p.1 as int]));
                    assert(!all_digits(t@));
                }
                0
            }
        },
        None => {
            proof {
                let end = digit_run_end(t@, 0);
                if all_digits(t@) {
                    assert(end == t@.len()) by {
                        if end < t@.len() {
                            assert(is_digit_char(t@[end]));
                        }
                    }
                    assert(t@.subrange(0, t@.len() as int) =~= t@);
                }
            }
            0
        },
    }
}

/// What the filesystem-usage table reports: total, used and available
/// bytes, read from the second line's second, third and fourth columns.
/// `None` when the table is too short or too narrow, so the caller falls
/// back to the block-counted path.
pub fn parse_df_output(output: &str, default_total: u64) -> (r: Option<(u64, u64, u64)>)
    ensures
        ({
            let lines = spec_lines(output@);
            match r {
                Some(t) => {
                    &&& lines.len() >= 2
                    &&& spec_tokens(lines[1]).len() >= 4
                    &&& t.0 as int == spec_column_number(lines[1], 1, default_total as int)
                    &&& t.1 as int == spec_column_number(lines[1], 2, 0)
                    &&& t.2 as int == spec_column_number(lines[1], 3, 0)
                },
                None => lines.len() < 2 || spec_tokens(lines[1]).len() < 4,
            }
        }),
{
    let text = chars_of(output);
    let lines = split_lines(&text);
    if lines.len() < 2 {
        return None;
    }
    proof {
        crate::text::lemma_lines_entry(lines, 1);
        assert(lines@[1]@ == spec_lines(output@)[1]);
    }
    let toks = split_tokens(&lines[1]);
    if toks.len() < 4 {
        return None;
    }
    proof {
        crate::text::lemma_lines_entry(toks, 1);
        crate::text::lemma_lines_entry(toks, 2);
        crate::text::lemma_lines_entry(toks, 3);
        assert(toks@[1]@ == spec_tokens(spec_lines(output@)[1])[1]);
        assert(toks@[2]@ == spec_tokens(spec_lines(output@)[1])[2]);
        assert(toks@[3]@ == spec_tokens(spec_lines(output@)[1])[3]);
    }
    let total = parse_token_number_or(&toks[1], default_total);
    let used = parse_token_number_or(&toks[2], 0);
    let available = parse_token_number_or(&toks[3], 0);
    Some((total, used, available))
}

/// The number in one column of a line, with a default for a column that is
/// not a number.
pub open spec fn spec_column_number(line: Seq<char>, col: int, default: int) -> int {
    let t = spec_tokens(line)[col];
    if all_digits(t) && digits_value(t) <= u64::MAX {
        digits_value(t)
    } else {
        default
    }
}

/// The value of a token when it is a whole decimal number that fits, and
/// the default otherwise.
fn parse_token_number_or(t: &Vec<char>, default: u64) -> (r: u64)
    ensures
        r as int == if all_digits(t@) && digits_value(t@) <= u64::MAX {
            digits_value(t@)
        } else {
            default as int
        },
{
    if token_all_digits(t) {
        proof {
            crate::text::lemma_digit_run_end(t@, 0);
            let end = digit_run_end(t@, 0);
            assert(end == t@.len()) by {
                if end < t@.len() {
                    assert(is_digit_char(t@[end]));
                }
            }
        }
        match parse_u64(t, 0) {
            Some(p) => {
                proof {
                    assert(t@.subrange(0, t@.len() as int) =~= t@);
                }
                p.0
            },
            None => {
                proof {
                    assert(t@.subrange(0, t@.len() as int) =~= t@);
                }
                default
            },
        }
    } else {
        default
    }
}

/// The block-counted fallback: the whole image as the total, what the
/// block counter reported as used, and the difference — floored at zero —
/// as available.
pub fn fallback_filesystem_info(total: u64, used: u64) -> (r: (u64, u64, u64))
    ensures
        r.0 == total,
        r.1 == used,
        r.2 == if used < total {
            total - used
        } else {
            0
        },
{
    let available = if used < total {
        total - used
    } else {
        0
    };
    (total, used, available)
}

/// Whether the unmount tool only complained that nothing was mounted,
/// which the unmount path tolerates.
pub fn stderr_says_not_mounted(stderr: &str) -> (r: bool)
    ensures
        r == spec_contains_seq(stderr@, "not mounted"@),
{
    let text = chars_of(stderr);
    let pat = chars_of("not mounted");
    contains_chars(&text, &pat)
}

/// Whether a quota-table line speaks of the subvolume: it holds the name
/// or the path, and at least three columns.
pub open spec fn qgroup_line_matches(line: Seq<char>, name: Seq<char>, path: Seq<char>) -> bool {
    (spec_contains_seq(line, name) || spec_contains_seq(line, path)) && spec_tokens(line).len()
        >= 3
}

/// The referenced and exclusive sizes of the first quota-table line that
/// speaks of the subvolume.
pub open spec fn spec_qgroup_sizes(lines: Seq<Seq<char>>, name: Seq<char>, path: Seq<char>) -> Option<
    (int, int),
>
    decreases lines.len(),
{
    if lines.len() == 0 {
        None
    } else if qgroup_line_matches(lines[0], name, path) {
        Some(
            (spec_column_number(lines[0], 1, 0), spec_column_number(lines[0], 2, 0)),
        )
    } else {
        spec_qgroup_sizes(lines.drop_first(), name, path)
    }
}

/// Read the referenced and exclusive sizes of one subvolume out of the
/// quota table: the second and third columns of the first line that names
/// it.  `None` when no line does, so the caller falls back to the
/// block-counted path.
pub fn parse_qgroup_output(output: &str, subvolume_name: &str, subvolume_path: &str) -> (r: Option<
    (u64, u64),
>)
    ensures
        match r {
            Some(t) => spec_qgroup_sizes(
                spec_lines(output@),
                subvolume_name@,
                subvolume_path@,
            ) matches Some(v) && t.0 as int == v.0 && t.1 as int == v.1,
            None => spec_qgroup_sizes(spec_lines(output@), subvolume_name@, subvolume_path@) is None,
        },
{
    let text = chars_of(output);
    let name = chars_of(subvolume_name);
    let path = chars_of(subvolume_path);
    let lines = split_lines(&text);
    let ghost lv = lines.deep_view();
    let mut i: usize = 0;
    proof {
        assert(lv.skip(0) =~= lv);
    }
    let n = lines.len();
    while i < n
        invariant
            n == lv.len(),
            i <= n,
            lines.deep_view() == lv,
            lv == spec_lines(output@),
            name@ == subvolume_name@,
            path@ == subvolume_path@,
            spec_qgroup_sizes(lv.skip(i as int), name@, path@) == spec_qgroup_sizes(
                lv,
                name@,
                path@,
            ),
        decreases n - i,
    {
        proof {
            crate::text::lemma_lines_entry(lines, i as int);
            assert(lv.skip(i as int)[0] == lv[i as int]);
            assert(lv.skip(i as int).drop_first() =~= lv.skip(i as int + 1));
        }
        let line = &lines[i];
        let holds_name = contains_chars(line, &name);
        let holds_path = contains_chars(line, &path);
        if holds_name || holds_path {
            let toks = split_tokens(line);
            if toks.len() >= 3 {
                proof {
                    assert(toks.deep_view() == spec_tokens(lv[i as int]));
                    crate::text::lemma_lines_entry(toks, 1);
                    crate::text::lemma_lines_entry(toks, 2);
                    assert(toks@[1]@ == spec_tokens(lv[i as int])[1]);
                    assert(toks@[2]@ == spec_tokens(lv[i as int])[2]);
                    assert(qgroup_line_matches(lv[i as int], name@, path@));
                }
                let referenced = parse_token_number_or(&toks[1], 0);
                let exclusive = parse_token_number_or(&toks[2], 0);
                return Some((referenced, exclusive));
            }
            proof {
                assert(spec_tokens(lv[i as int]).len() < 3);
                assert(!qgroup_line_matches(lv[i as int], name@, path@));
            }
        } else {
            proof {
                assert(!qgroup_line_matches(lv[i as int], name@, path@));
            }
        }
        i += 1;
    }
    proof {
        assert(lv.skip(n as int) =~= Seq::<Seq<char>>::empty());
    }
    None
}

} // verus!
