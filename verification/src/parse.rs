//! Pure parsing helpers for the declarative world format: start-location
//! strings, name-and-alias lists, and multi-line description normalization.
use vstd::prelude::*;
use vstd::string::*;

use crate::model::{ItemLocation, LocV};
use crate::text::{
    lower_seq, spec_trim, trim_str,
};

verus! {

/// The parsed form of a start-location string.
pub open spec fn spec_parse_item_location(s: Seq<char>) -> Result<LocV, Seq<char>> {
    let t = spec_trim(s);
    if lower_seq(t) == "inventory"@ {
        Ok(LocV::Inventory)
    } else if t.len() >= 5 && t.take(5) == "room:"@ {
        let rid = spec_trim(t.skip(5));
        if rid.len() == 0 {
            Err("Invalid start_location '"@ + t + "': empty room id"@)
        } else {
            Ok(LocV::Room(rid))
        }
    } else if t.len() >= 5 && t.take(5) == "item:"@ {
        let iid = spec_trim(t.skip(5));
        if iid.len() == 0 {
            Err("Invalid start_location '"@ + t + "': empty item id"@)
        } else {
            Ok(LocV::Item(iid))
        }
    } else if t.len() >= 4 && t.take(4) == "npc:"@ {
        let nid = spec_trim(t.skip(4));
        if nid.len() == 0 {
            Err("Invalid start_location '"@ + t + "': empty npc id"@)
        } else {
            Ok(LocV::Npc(nid))
        }
    } else {
        Err(
            "Invalid start_location '"@ + t
                + "': expected 'room:<id>', 'item:<id>', 'npc:<id>', or 'inventory'"@,
        )
    }
}

/// Parses a start-location string: `inventory`, `room:<id>`, `item:<id>`,
/// or `npc:<id>` (the keyword case-insensitive, ids trimmed).
#[verifier::rlimit(60)]
pub fn parse_item_location(s: &str) -> (r: Result<ItemLocation, String>)
    ensures
        r matches Ok(l) ==> spec_parse_item_location(s@) == Ok::<LocV, Seq<char>>(l@),
        r matches Err(m) ==> spec_parse_item_location(s@) == Err::<LocV, Seq<char>>(m@),
{
    let t = trim_str(s);
    let tn = t.unicode_len();
    if crate::text::eq_ignore_case(t, "inventory") {
        proof {
            reveal_strlit("inventory");
            assert(lower_seq("inventory"@) =~= "inventory"@);
        }
        return Ok(ItemLocation::Inventory);
    }
    proof {
        reveal_strlit("inventory");
        assert(lower_seq("inventory"@) =~= "inventory"@);
    }
    let room_pfx = tn >= 5 && t.get_char(0) == 'r' && t.get_char(1) == 'o' && t.get_char(2) == 'o'
        && t.get_char(3) == 'm' && t.get_char(4) == ':';
    proof {
        reveal_strlit("room:");
        if tn >= 5 {
            if room_pfx {
                assert(t@.take(5) =~= "room:"@);
            } else if t@.take(5) == "room:"@ {
                assert(t@.take(5)[0] == 'r');
                assert(t@.take(5)[1] == 'o');
                assert(t@.take(5)[2] == 'o');
                assert(t@.take(5)[3] == 'm');
                assert(t@.take(5)[4] == ':');
            }
        }
    }
    if room_pfx {
        let rest = t.substring_char(5, tn);
        proof {
            assert(rest@ =~= t@.skip(5));
        }
        let rid = trim_str(rest);
        if rid.unicode_len() == 0 {
            let mut m = String::from_str("Invalid start_location '");
            m.append(t);
            m.append("': empty room id");
            return Err(m);
        }
        return Ok(ItemLocation::Room(String::from_str(rid)));
    }
    let item_pfx = tn >= 5 && t.get_char(0) == 'i' && t.get_char(1) == 't' && t.get_char(2) == 'e'
        && t.get_char(3) == 'm' && t.get_char(4) == ':';
    proof {
        reveal_strlit("item:");
        if tn >= 5 {
            if item_pfx {
                assert(t@.take(5) =~= "item:"@);
            } else if t@.take(5) == "item:"@ {
                assert(t@.take(5)[0] == 'i');
                assert(t@.take(5)[1] == 't');
                assert(t@.take(5)[2] == 'e');
                assert(t@.take(5)[3] == 'm');
                assert(t@.take(5)[4] == ':');
            }
        }
    }
    if item_pfx {
        let rest = t.substring_char(5, tn);
        proof {
            assert(rest@ =~= t@.skip(5));
        }
        let iid = trim_str(rest);
        if iid.unicode_len() == 0 {
            let mut m = String::from_str("Invalid start_location '");
            m.append(t);
            m.append("': empty item id");
            return Err(m);
        }
        return Ok(ItemLocation::Item(String::from_str(iid)));
    }
    let npc_pfx = tn >= 4 && t.get_char(0) == 'n' && t.get_char(1) == 'p' && t.get_char(2) == 'c'
        && t.get_char(3) == ':';
    proof {
        reveal_strlit("npc:");
        if tn >= 4 {
            if npc_pfx {
                assert(t@.take(4) =~= "npc:"@);
            } else if t@.take(4) == "npc:"@ {
                assert(t@.take(4)[0] == 'n');
                assert(t@.take(4)[1] == 'p');
                assert(t@.take(4)[2] == 'c');
                assert(t@.take(4)[3] == ':');
            }
        }
    }
    if npc_pfx {
        let rest = t.substring_char(4, tn);
        proof {
            assert(rest@ =~= t@.skip(4));
        }
        let nid = trim_str(rest);
        if nid.unicode_len() == 0 {
            let mut m = String::from_str("Invalid start_location '");
            m.append(t);
            m.append("': empty npc id");
            return Err(m);
        }
        return Ok(ItemLocation::Npc(String::from_str(nid)));
    }
    let mut m = String::from_str("Invalid start_location '");
    m.append(t);
    m.append("': expected 'room:<id>', 'item:<id>', 'npc:<id>', or 'inventory'");
    Err(m)
}

/// The first `|` at or after `i` (or the length of `s`).
pub open spec fn find_pipe(s: Seq<char>, i: nat) -> nat
    decreases s.len() - i,
{
    if i >= s.len() || s[i as int] == '|' {
        i
    } else {
        find_pipe(s, (i + 1) as nat)
    }
}

pub proof fn lemma_find_pipe_bounds(s: Seq<char>, i: nat)
    requires
        i <= s.len(),
    ensures
        i <= find_pipe(s, i) <= s.len(),
    decreases s.len() - i,
{
    if i < s.len() && s[i as int] != '|' {
        lemma_find_pipe_bounds(s, (i + 1) as nat);
    }
}

/// The trimmed, non-blank segments of a `|`-separated list, from `i` on.
pub open spec fn pipe_parts_from(s: Seq<char>, i: nat) -> Seq<Seq<char>>
    decreases s.len() + 1 - i,
    via pipe_parts_from_decreases
{
    if i > s.len() {
        Seq::empty()
    } else {
        let j = find_pipe(s, i);
        let p = spec_trim(s.subrange(i as int, j as int));
        let rest = pipe_parts_from(s, (j + 1) as nat);
        if p.len() > 0 {
            seq![p] + rest
        } else {
            rest
        }
    }
}

#[via_fn]
proof fn pipe_parts_from_decreases(s: Seq<char>, i: nat) {
    if i <= s.len() {
        lemma_find_pipe_bounds(s, i);
    }
}

/// Splits a raw name on `|` into the primary name and the aliases; blank
/// segments are dropped.
pub fn parse_name_and_aliases(raw: &str) -> (r: (String, Vec<String>))
    requires
        raw@.len() < usize::MAX,
    ensures
        ({
            let parts = pipe_parts_from(raw@, 0);
            &&& r.0@ == (if parts.len() == 0 {
                Seq::<char>::empty()
            } else {
                parts[0]
            })
            &&& r.1@.len() == (if parts.len() == 0 {
                0int
            } else {
                parts.len() - 1
            })
            &&& (forall|k: int| 0 <= k < r.1@.len() ==> (#[trigger] r.1@[k])@ == parts[k + 1])
        }),
{
    let n = raw.unicode_len();
    let mut parts: Vec<String> = Vec::new();
    let mut i: usize = 0;
    while i <= n
        invariant
            i <= n + 1,
            n == raw@.len(),
            pipe_parts_from(raw@, 0) == parts@.map_values(|x: String| x@) + pipe_parts_from(
                raw@,
                i as nat,
            ),
        decreases n + 1 - i,
    {
        let mut j: usize = i;
        while j < n && raw.get_char(j) != '|'
            invariant
                i <= j <= n,
                n == raw@.len(),
                find_pipe(raw@, i as nat) == find_pipe(raw@, j as nat),
            decreases n - j,
        {
            j += 1;
        }
        assert(find_pipe(raw@, j as nat) == j as nat);
        let piece = raw.substring_char(i, j);
        proof {
            assert(piece@ =~= raw@.subrange(i as int, j as int));
        }
        let t = trim_str(piece);
        let ghost parts0 = parts@;
        if t.unicode_len() > 0 {
            parts.push(String::from_str(t));
            proof {
                assert(parts@.map_values(|x: String| x@) =~= parts0.map_values(
                    |x: String| x@,
                ).push(t@));
                assert(pipe_parts_from(raw@, i as nat) == seq![t@] + pipe_parts_from(
                    raw@,
                    (j + 1) as nat,
                ));
                assert(parts@.map_values(|x: String| x@) + pipe_parts_from(raw@, (j + 1) as nat)
                    =~= parts0.map_values(|x: String| x@) + pipe_parts_from(raw@, i as nat));
            }
        } else {
            proof {
                assert(pipe_parts_from(raw@, i as nat) == pipe_parts_from(raw@, (j + 1) as nat));
            }
        }
        i = j + 1;
    }
    proof {
        assert(pipe_parts_from(raw@, i as nat) == Seq::<Seq<char>>::empty());
        assert(parts@.map_values(|x: String| x@) =~= pipe_parts_from(raw@, 0));
    }
    if parts.len() == 0 {
        return (String::new(), Vec::new());
    }
    let primary = parts.remove(0);
    proof {
        assert(parts@.map_values(|x: String| x@) =~= pipe_parts_from(raw@, 0).skip(1));
    }
    (primary, parts)
}

/// The first `\n` at or after `i` (or the length of `s`).
pub open spec fn line_end(s: Seq<char>, i: nat) -> nat
    decreases s.len() - i,
{
    if i >= s.len() || s[i as int] == '\n' {
        i
    } else {
        line_end(s, (i + 1) as nat)
    }
}

pub proof fn lemma_line_end_bounds(s: Seq<char>, i: nat)
    requires
        i <= s.len(),
    ensures
        i <= line_end(s, i) <= s.len(),
    decreases s.len() - i,
{
    if i < s.len() && s[i as int] != '\n' {
        lemma_line_end_bounds(s, (i + 1) as nat);
    }
}

/// Normalizing the lines from position `i` on: each line is trimmed; a
/// wrapped line joins with a space, one blank line becomes a newline, and
/// two or more become a paragraph break.
pub open spec fn spec_norm_from(
    s: Seq<char>,
    i: nat,
    acc: Seq<char>,
    first: bool,
    pending: nat,
) -> Seq<char>
    decreases s.len() + 1 - i,
    via spec_norm_from_decreases
{
    if i >= s.len() {
        acc
    } else {
        let j = line_end(s, i);
        let t = spec_trim(s.subrange(i as int, j as int));
        if t.len() == 0 {
            spec_norm_from(s, (j + 1) as nat, acc, first, pending + 1)
        } else {
            let acc2 = if !first {
                t
            } else if pending == 0 {
                acc + " "@ + t
            } else if pending == 1 {
                acc + "\n"@ + t
            } else {
                acc + "\n\n"@ + t
            };
            spec_norm_from(s, (j + 1) as nat, acc2, true, 0)
        }
    }
}

#[via_fn]
proof fn spec_norm_from_decreases(s: Seq<char>, i: nat, acc: Seq<char>, first: bool, pending: nat) {
    if i < s.len() {
        lemma_line_end_bounds(s, i);
    }
}

/// The normalized form of a multi-line description.
pub open spec fn spec_normalize(s: Seq<char>) -> Seq<char> {
    spec_norm_from(s, 0, Seq::empty(), false, 0)
}

/// Normalizes a multi-line description: indentation and trailing space are
/// stripped from every line; a single line break joins as a space, one
/// blank line becomes a visible newline, two or more a paragraph break.
pub fn normalize_multiline_desc(raw: &str) -> (r: String)
    requires
        raw@.len() < usize::MAX,
    ensures
        r@ == spec_normalize(raw@),
{
    let n = raw.unicode_len();
    let mut r = String::new();
    let mut first = false;
    let mut pending: usize = 0;
    let mut i: usize = 0;
    while i < n
        invariant
            i <= n + 1,
            n == raw@.len(),
            pending <= i,
            !first ==> r@ == Seq::<char>::empty(),
            spec_normalize(raw@) == spec_norm_from(raw@, i as nat, r@, first, pending as nat),
        decreases n + 1 - i,
    {
        let mut j: usize = i;
        while j < n && raw.get_char(j) != '\n'
            invariant
                i <= j <= n,
                n == raw@.len(),
                line_end(raw@, i as nat) == line_end(raw@, j as nat),
            decreases n - j,
        {
            j += 1;
        }
        assert(line_end(raw@, j as nat) == j as nat);
        let piece = raw.substring_char(i, j);
        proof {
            assert(piece@ =~= raw@.subrange(i as int, j as int));
        }
        let t = trim_str(piece);
        let ghost r0 = r@;
        if t.unicode_len() == 0 {
            pending += 1;
        } else {
            if !first {
                r.append(t);
                first = true;
                assert(r@ =~= t@);
            } else {
                if pending == 0 {
                    r.append(" ");
                    r.append(t);
                    assert(r@ =~= r0 + " "@ + t@);
                } else if pending == 1 {
                    r.append("\n");
                    r.append(t);
                    assert(r@ =~= r0 + "\n"@ + t@);
                } else {
                    r.append("\n\n");
                    r.append(t);
                    assert(r@ =~= r0 + "\n\n"@ + t@);
                }
            }
            pending = 0;
        }
        i = j + 1;
    }
    r
}

} // verus!
