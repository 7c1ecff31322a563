use vstd::prelude::*;

verus! {

/// A source line ready for display.
#[derive(Debug, Clone)]
pub struct SourceLine {
    pub path: String,
    /// 1-based.
    pub line: u64,
    /// `None` when the file cannot be read.
    pub text: Option<String>,
}

/// A row of a DWARF line program: an address and the file and line it maps to.
#[derive(Debug, Clone)]
pub struct LineRow {
    pub path: String,
    pub line: u64,
    pub address: u64,
}

/// Whether `std::path::Path` deems the path absolute.
pub uninterp spec fn path_is_absolute(p: Seq<char>) -> bool;

/// Whether `std::path::Path::ends_with` holds: `suffix`'s components end `p`.
pub uninterp spec fn path_ends_with(p: Seq<char>, suffix: Seq<char>) -> bool;

/// Whether two paths are equal as `std::path::Path`s, component by component.
pub uninterp spec fn path_equal(a: Seq<char>, b: Seq<char>) -> bool;

/// Relies on `std::path::Path::is_absolute`; the answer depends on the text alone.
#[verifier::external_body]
fn is_absolute_path(p: &str) -> (r: bool)
    ensures
        r == path_is_absolute(p@),
{
    std::path::Path::new(p).is_absolute()
}

/// Relies on `std::path::Path::ends_with`, which compares whole components.
#[verifier::external_body]
fn path_has_suffix(p: &str, suffix: &str) -> (r: bool)
    ensures
        r == path_ends_with(p@, suffix@),
{
    std::path::Path::new(p).ends_with(std::path::Path::new(suffix))
}

/// Relies on `==` of `std::path::Path`, which compares components.
#[verifier::external_body]
fn same_path(a: &str, b: &str) -> (r: bool)
    ensures
        r == path_equal(a@, b@),
{
    std::path::Path::new(a) == std::path::Path::new(b)
}

/// A row's path names the file asked for: the same path when that is
/// absolute, else a path that ends with it.
pub open spec fn path_matches(row_path: Seq<char>, file: Seq<char>) -> bool {
    if path_is_absolute(file) {
        path_equal(row_path, file)
    } else {
        path_ends_with(row_path, file)
    }
}

/// The runtime address of a row: its address plus the load bias, saturating.
pub open spec fn runtime_address(row: LineRow, load_bias: u64) -> u64 {
    if row.address + load_bias > u64::MAX {
        u64::MAX
    } else {
        (row.address + load_bias) as u64
    }
}

pub open spec fn row_matches(row: LineRow, file: Seq<char>, line: u64) -> bool {
    row.line == line && path_matches(row.path@, file)
}

pub open spec fn strictly_sorted(s: Seq<u64>) -> bool {
    forall|i: int, j: int| 0 <= i < j < s.len() ==> s[i] < s[j]
}

/// Inserts `x` into a strictly increasing vector unless it is there already.
pub fn insert_unique(v: &mut Vec<u64>, x: u64)
    requires
        strictly_sorted(old(v)@),
    ensures
        strictly_sorted(final(v)@),
        forall|y: u64| final(v)@.contains(y) <==> (old(v)@.contains(y) || y == x),
{
    let mut p: usize = 0;
    while p < v.len() && v[p] < x
        invariant
            p <= v@.len(),
            *v == *old(v),
            forall|j: int| 0 <= j < p ==> v@[j] < x,
        decreases v.len() - p,
    {
        p += 1;
    }
    if p < v.len() && v[p] == x {
        return;
    }
    let ghost before = v@;
    assert(before == old(v)@);
    v.insert(p, x);
    assert forall|y: u64| v@.contains(y) <==> (before.contains(y) || y == x) by {
        if v@.contains(y) {
            let k = choose|k: int| 0 <= k < v@.len() && v@[k] == y;
            if k < p {
                assert(before[k] == y);
            } else if k > p {
                assert(before[k - 1] == y);
            }
        }
        if before.contains(y) {
            let k = choose|k: int| 0 <= k < before.len() && before[k] == y;
            if k < p {
                assert(v@[k] == y);
            } else {
                assert(v@[k + 1] == y);
            }
        }
        if y == x {
            assert(v@[p as int] == x);
        }
    }
    assert forall|y: u64| v@.contains(y) <==> (old(v)@.contains(y) || y == x) by {
        assert(v@.contains(y) <==> (before.contains(y) || y == x));
    }
}

/// The runtime addresses of the rows that map to `file:line`, sorted and
/// without repeats. An absolute `file` must equal a row's path; a relative one
/// must end it.
pub fn find_addresses_for_line(rows: &Vec<LineRow>, file: &str, target_line: u64, load_bias: u64) -> (r: Vec<u64>)
    ensures
        strictly_sorted(r@),
        forall|a: u64|
            r@.contains(a) <==> exists|i: int|
                0 <= i < rows@.len() && row_matches(rows@[i], file@, target_line)
                    && runtime_address(rows@[i], load_bias) == a,
{
    let is_absolute = is_absolute_path(file);
    let mut addrs: Vec<u64> = Vec::new();
    let mut i: usize = 0;
    while i < rows.len()
        invariant
            i <= rows@.len(),
            is_absolute == path_is_absolute(file@),
            strictly_sorted(addrs@),
            forall|a: u64|
                addrs@.contains(a) <==> exists|k: int|
                    0 <= k < i && row_matches(rows@[k], file@, target_line) && runtime_address(
                        rows@[k],
                        load_bias,
                    ) == a,
        decreases rows.len() - i,
    {
        let row = &rows[i];
        let matched = row.line == target_line && if is_absolute {
            same_path(row.path.as_str(), file)
        } else {
            path_has_suffix(row.path.as_str(), file)
        };
        if matched {
            let a = row.address.saturating_add(load_bias);
            let ghost before = addrs@;
            insert_unique(&mut addrs, a);
            assert forall|y: u64|
                addrs@.contains(y) <==> exists|k: int|
                    0 <= k < i + 1 && row_matches(rows@[k], file@, target_line) && runtime_address(
                        rows@[k],
                        load_bias,
                    ) == y by {
                if y == a {
                    assert(row_matches(rows@[i as int], file@, target_line));
                }
                if exists|k: int|
                    0 <= k < i + 1 && row_matches(rows@[k], file@, target_line) && runtime_address(
                        rows@[k],
                        load_bias,
                    ) == y {
                    let k = choose|k: int|
                        0 <= k < i + 1 && row_matches(rows@[k], file@, target_line)
                            && runtime_address(rows@[k], load_bias) == y;
                    if k < i {
                        assert(before.contains(y));
                    }
                }
            }
        } else {
            assert forall|y: u64|
                addrs@.contains(y) <==> exists|k: int|
                    0 <= k < i + 1 && row_matches(rows@[k], file@, target_line) && runtime_address(
                        rows@[k],
                        load_bias,
                    ) == y by {
                if exists|k: int|
                    0 <= k < i + 1 && row_matches(rows@[k], file@, target_line) && runtime_address(
                        rows@[k],
                        load_bias,
                    ) == y {
                    let k = choose|k: int|
                        0 <= k < i + 1 && row_matches(rows@[k], file@, target_line)
                            && runtime_address(rows@[k], load_bias) == y;
                    assert(k < i);
                }
            }
        }
        i += 1;
    }
    addrs
}

pub open spec fn loc_view(l: Option<(String, u64)>) -> Option<(Seq<char>, u64)> {
    match l {
        Some((p, n)) => Some((p@, n)),
        None => None,
    }
}

pub open spec fn locs_view(v: Seq<Option<(String, u64)>>) -> Seq<Option<(Seq<char>, u64)>> {
    v.map_values(|l: Option<(String, u64)>| loc_view(l))
}

pub open spec fn pairs_view(v: Seq<(String, u64)>) -> Seq<(Seq<char>, u64)> {
    v.map_values(|l: (String, u64)| (l.0@, l.1))
}

/// Up to `n` source lines from the locations of the next instructions: those
/// without a location are skipped, so are leading repeats of the current line
/// and repeats of the line just taken.
pub open spec fn next_lines(
    current: Option<(Seq<char>, u64)>,
    locs: Seq<Option<(Seq<char>, u64)>>,
    n: nat,
) -> Seq<(Seq<char>, u64)>
    decreases locs.len(),
{
    if locs.len() == 0 {
        Seq::empty()
    } else {
        let prev = next_lines(current, locs.drop_last(), n);
        if prev.len() >= n {
            prev
        } else {
            match locs.last() {
                None => prev,
                Some(loc) => if prev.len() == 0 && current == Some(loc) {
                    prev
                } else if prev.len() > 0 && prev.last() == loc {
                    prev
                } else {
                    prev.push(loc)
                },
            }
        }
    }
}

fn same_loc(a: &(String, u64), b: &(String, u64)) -> (r: bool)
    ensures
        r == ((a.0@, a.1) == (b.0@, b.1)),
{
    a.1 == b.1 && a.0 == b.0
}

/// The next `n` distinct source lines after the current one (see
/// `next_lines`), given the location of each upcoming instruction.
pub fn next_lines_from_locations(
    current: &Option<(String, u64)>,
    locations: &Vec<Option<(String, u64)>>,
    n: usize,
) -> (r: Vec<(String, u64)>)
    ensures
        pairs_view(r@) == next_lines(loc_view(*current), locs_view(locations@), n as nat),
{
    let mut out: Vec<(String, u64)> = Vec::new();
    let mut i: usize = 0;
    while i < locations.len()
        invariant
            i <= locations@.len(),
            pairs_view(out@) == next_lines(
                loc_view(*current),
                locs_view(locations@).take(i as int),
                n as nat,
            ),
        decreases locations.len() - i,
    {
        let ghost lv = locs_view(locations@);
        assert(lv.take(i + 1).drop_last() =~= lv.take(i as int));
        assert(lv.take(i + 1).last() == loc_view(locations@[i as int]));
        if out.len() < n {
            match &locations[i] {
                None => {},
                Some(loc) => {
                    let skip_current = out.len() == 0 && match current {
                        Some(c) => same_loc(c, loc),
                        None => false,
                    };
                    let skip_repeat = out.len() > 0 && same_loc(&out[out.len() - 1], loc);
                    if !skip_current && !skip_repeat {
                        let ghost before = out@;
                        let copy = (loc.0.clone(), loc.1);
                        out.push(copy);
                        assert(pairs_view(out@) =~= pairs_view(before).push((loc.0@, loc.1)));
                    }
                },
            }
        }
        i += 1;
    }
    assert(locs_view(locations@).take(locations@.len() as int) =~= locs_view(locations@));
    out
}

} // verus!
