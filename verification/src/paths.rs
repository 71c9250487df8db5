//! File-system paths, held as text, joined the way `PathBuf::push` joins them
//! on Unix.
use vstd::prelude::*;

verus! {

/// `base` joined with `part`: `part` itself when it is absolute (starts with
/// `/`) or when `base` is empty; `base` followed by `part` when `base` already
/// ends with `/`; otherwise `base`, `/`, `part`.
pub open spec fn joined(base: Seq<char>, part: Seq<char>) -> Seq<char> {
    if part.len() > 0 && part[0] == '/' {
        part
    } else if base.len() == 0 {
        part
    } else if base[base.len() - 1] == '/' {
        base + part
    } else {
        base + seq!['/'] + part
    }
}

/// `base` joined with `part` (see `joined`).
pub fn join_path(base: &str, part: &str) -> (r: String)
    ensures
        r@ == joined(base@, part@),
{
    let b = crate::text::chars_of(base);
    let p = crate::text::chars_of(part);
    if p.len() > 0 && p[0] == '/' {
        return crate::text::string_of(&p);
    }
    if b.len() == 0 {
        return crate::text::string_of(&p);
    }
    let mut r = crate::text::string_of(&b);
    if b[b.len() - 1] != '/' {
        crate::text::push_char(&mut r, '/');
    }
    crate::text::push_text(&mut r, part);
    r
}


/// The non-empty parts of `s` between slashes, when the part being read
/// already holds `cur`.
pub open spec fn segments_from(s: Seq<char>, cur: Seq<char>) -> Seq<Seq<char>>
    decreases s.len(),
{
    if s.len() == 0 {
        if cur.len() == 0 {
            Seq::empty()
        } else {
            seq![cur]
        }
    } else if s[0] == '/' {
        (if cur.len() == 0 {
            Seq::empty()
        } else {
            seq![cur]
        }) + segments_from(s.drop_first(), Seq::empty())
    } else {
        segments_from(s.drop_first(), cur.push(s[0]))
    }
}

/// How many of the parts are not `.`.
pub open spec fn count_not_dot(segs: Seq<Seq<char>>) -> nat
    decreases segs.len(),
{
    if segs.len() == 0 {
        0
    } else {
        count_not_dot(segs.drop_last()) + if segs.last() == seq!['.'] { 0nat } else { 1nat }
    }
}

/// The number of components of the relative path `s` (`Path::components`):
/// repeated and trailing slashes make none, a `.` makes one only at the
/// start.
pub open spec fn component_count(s: Seq<char>) -> nat {
    let segs = segments_from(s, Seq::empty());
    count_not_dot(segs) + if segs.len() > 0 && segs[0] == seq!['.'] { 1nat } else { 0nat }
}

/// Where a backtest finds the script `input`: the path itself when it is
/// absolute or has more than one component, else the file of that name in
/// `<workspace>/scripts`.
pub open spec fn script_location(workspace_dir: Seq<char>, input: Seq<char>) -> Seq<char> {
    if (input.len() > 0 && input[0] == '/') || component_count(input) > 1 {
        input
    } else {
        joined(joined(workspace_dir, "scripts"@), input)
    }
}

fn relative_components_exceed_one(v: &Vec<char>) -> (r: bool)
    ensures
        r == (component_count(v@) > 1),
{
    let mut segs: Vec<Vec<char>> = Vec::new();
    let mut cur: Vec<char> = Vec::new();
    let mut i: usize = 0;
    let ghost mut done: Seq<Seq<char>> = Seq::empty();
    assert(v@.skip(0) =~= v@);
    while i < v.len()
        invariant
            i <= v@.len(),
            segments_from(v@, Seq::empty()) == segs@.map_values(|x: Vec<char>| x@) + segments_from(v@.skip(i as int), cur@),
        decreases v@.len() - i,
    {
        let ghost rest = v@.skip(i as int);
        let ghost old_cur = cur@;
        let ghost before = segs@.map_values(|x: Vec<char>| x@);
        assert(rest[0] == v@[i as int]);
        assert(rest.drop_first() =~= v@.skip(i as int + 1));
        if v[i] == '/' {
            if cur.len() > 0 {
                segs.push(cur);
                cur = Vec::new();
                proof {
                    assert(segs@.map_values(|x: Vec<char>| x@) =~= before.push(old_cur));
                    assert(before + (seq![old_cur] + segments_from(rest.drop_first(), Seq::empty()))
                        =~= before.push(old_cur) + segments_from(rest.drop_first(), Seq::empty()));
                    assert(cur@ =~= Seq::<char>::empty());
                }
            } else {
                proof {
                    assert(old_cur =~= Seq::<char>::empty());
                    assert(Seq::<Seq<char>>::empty() + segments_from(rest.drop_first(), Seq::empty())
                        =~= segments_from(rest.drop_first(), Seq::empty()));
                }
            }
        } else {
            cur.push(v[i]);
        }
        i = i + 1;
    }
    proof {
        assert(v@.skip(i as int) =~= Seq::<char>::empty());
    }
    if cur.len() > 0 {
        let ghost before = segs@.map_values(|x: Vec<char>| x@);
        let ghost last = cur@;
        segs.push(cur);
        proof {
            assert(segs@.map_values(|x: Vec<char>| x@) =~= before + seq![last]);
        }
    } else {
        assert(segs@.map_values(|x: Vec<char>| x@) + Seq::<Seq<char>>::empty() =~= segs@.map_values(|x: Vec<char>| x@));
    }
    let ghost all = segs@.map_values(|x: Vec<char>| x@);
    let mut count: usize = 0;
    let mut k: usize = 0;
    assert(all.take(0) =~= Seq::<Seq<char>>::empty());
    while k < segs.len()
        invariant
            k <= segs@.len(),
            all == segs@.map_values(|x: Vec<char>| x@),
            count == count_not_dot(all.take(k as int)),
            count <= k,
        decreases segs@.len() - k,
    {
        proof {
            assert(all.take(k as int + 1).drop_last() =~= all.take(k as int));
            assert(all.take(k as int + 1).last() == segs@[k as int]@);
        }
        let is_dot = segs[k].len() == 1 && segs[k][0] == '.';
        proof {
            if is_dot {
                assert(segs@[k as int]@ =~= seq!['.']);
            } else if segs@[k as int]@.len() == 1 {
                assert(segs@[k as int]@[0] != '.');
            }
        }
        if !is_dot {
            count = count + 1;
        }
        k = k + 1;
    }
    proof {
        assert(all.take(segs@.len() as int) =~= all);
    }
    let lead: usize = if segs.len() > 0 && segs[0].len() == 1 && segs[0][0] == '.' { 1 } else { 0 };
    proof {
        if segs@.len() > 0 {
            if segs@[0]@.len() == 1 && segs@[0]@[0] == '.' {
                assert(all[0] =~= seq!['.']);
            } else if segs@[0]@.len() == 1 {
                assert(all[0][0] != '.');
            }
        }
    }
    if lead == 1 {
        count >= 1
    } else {
        count > 1
    }
}

/// Where a backtest finds the script `input` (see `script_location`).
pub fn script_path(workspace_dir: &str, input: &str) -> (r: String)
    ensures
        r@ == script_location(workspace_dir@, input@),
{
    let v = crate::text::chars_of(input);
    if (v.len() > 0 && v[0] == '/') || relative_components_exceed_one(&v) {
        crate::text::string_of(&v)
    } else {
        let scripts = join_path(workspace_dir, "scripts");
        join_path(scripts.as_str(), input)
    }
}

} // verus!
