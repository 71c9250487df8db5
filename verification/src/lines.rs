//! Line-oriented text: splitting into lines as `str::lines` does, joining
//! with newlines, the runner's rolling log, and the in-place update of the
//! Polymarket credentials in a configuration file.
use vstd::prelude::*;
use crate::text::{chars_of, contains, has_infix, has_prefix, lead_white, push_text, starts_with, string_of, trim_start_chars};

verus! {

/// A line without the carriage return that ends it, if any.
pub open spec fn strip_cr(l: Seq<char>) -> Seq<char> {
    if l.len() > 0 && l.last() == '\r' {
        l.drop_last()
    } else {
        l
    }
}

/// The lines of `s` when the current line already holds `cur`: each line
/// ends at a `\n` (and loses a `\r` just before it); a last line without a
/// `\n` counts when it is not empty.
pub open spec fn lines_from(s: Seq<char>, cur: Seq<char>) -> Seq<Seq<char>>
    decreases s.len(),
{
    if s.len() == 0 {
        if cur.len() == 0 {
            Seq::empty()
        } else {
            seq![cur]
        }
    } else if s[0] == '\n' {
        seq![strip_cr(cur)] + lines_from(s.drop_first(), Seq::empty())
    } else {
        lines_from(s.drop_first(), cur.push(s[0]))
    }
}

/// The lines of `s`, as `str::lines` gives them.
pub open spec fn lines_of(s: Seq<char>) -> Seq<Seq<char>> {
    lines_from(s, Seq::empty())
}

/// The lines joined with `\n` between them.
pub open spec fn join_lines(ls: Seq<Seq<char>>) -> Seq<char>
    decreases ls.len(),
{
    if ls.len() == 0 {
        Seq::empty()
    } else if ls.len() == 1 {
        ls[0]
    } else {
        join_lines(ls.drop_last()) + seq!['\n'] + ls.last()
    }
}

/// The views of a vector of character vectors.
pub open spec fn views(v: Seq<Vec<char>>) -> Seq<Seq<char>> {
    v.map_values(|l: Vec<char>| l@)
}

/// The lines of `s` (see `lines_of`).
pub fn split_lines(s: &Vec<char>) -> (r: Vec<Vec<char>>)
    ensures
        views(r@) == lines_of(s@),
{
    let mut out: Vec<Vec<char>> = Vec::new();
    let mut cur: Vec<char> = Vec::new();
    let mut i: usize = 0;
    assert(s@.skip(0) =~= s@);
    assert(views(out@) =~= Seq::<Seq<char>>::empty());
    while i < s.len()
        invariant
            i <= s@.len(),
            lines_of(s@) == views(out@) + lines_from(s@.skip(i as int), cur@),
        decreases s@.len() - i,
    {
        let ghost rest = s@.skip(i as int);
        assert(rest[0] == s@[i as int]);
        assert(rest.drop_first() =~= s@.skip(i as int + 1));
        let ghost old_cur = cur@;
        if s[i] == '\n' {
            let mut line = cur;
            if line.len() > 0 && line[line.len() - 1] == '\r' {
                line.pop();
            }
            proof {
                assert(line@ =~= strip_cr(old_cur));
            }
            let ghost before = views(out@);
            out.push(line);
            cur = Vec::new();
            proof {
                assert(views(out@) =~= before.push(strip_cr(old_cur)));
                assert(lines_from(rest, old_cur) == seq![strip_cr(old_cur)] + lines_from(rest.drop_first(), Seq::empty()));
                assert(before + (seq![strip_cr(old_cur)] + lines_from(rest.drop_first(), Seq::empty()))
                    =~= before.push(strip_cr(old_cur)) + lines_from(rest.drop_first(), Seq::empty()));
                assert(cur@ =~= Seq::<char>::empty());
            }
        } else {
            cur.push(s[i]);
        }
        i = i + 1;
    }
    proof {
        assert(s@.skip(i as int) =~= Seq::<char>::empty());
    }
    if cur.len() > 0 {
        let ghost before = views(out@);
        let ghost last = cur@;
        out.push(cur);
        proof {
            assert(views(out@) =~= before + seq![last]);
        }
    } else {
        assert(views(out@) + Seq::<Seq<char>>::empty() =~= views(out@));
    }
    out
}


/// The lines of `ls` from position `start` on, joined with `\n`.
pub fn join_from(ls: &Vec<Vec<char>>, start: usize) -> (r: Vec<char>)
    requires
        start <= ls@.len(),
    ensures
        r@ == join_lines(views(ls@).skip(start as int)),
{
    let ghost all = views(ls@).skip(start as int);
    let mut r: Vec<char> = Vec::new();
    let mut i: usize = start;
    assert(all.take(0) =~= Seq::<Seq<char>>::empty());
    while i < ls.len()
        invariant
            start <= i <= ls@.len(),
            all == views(ls@).skip(start as int),
            r@ == join_lines(all.take(i - start)),
        decreases ls@.len() - i,
    {
        let ghost before = r@;
        let k: usize = i - start;
        if i > start {
            r.push('\n');
        }
        let line = &ls[i];
        let mut j: usize = 0;
        let ghost mid = r@;
        while j < line.len()
            invariant
                j <= line@.len(),
                r@ == mid + line@.take(j as int),
            decreases line@.len() - j,
        {
            r.push(line[j]);
            j = j + 1;
            proof {
                assert(r@ =~= mid + line@.take(j as int));
            }
        }
        proof {
            let t = all.take(k + 1);
            assert(t.last() == line@);
            assert(t.drop_last() =~= all.take(k as int));
            assert(line@.take(line@.len() as int) =~= line@);
            if k == 0 {
                assert(t =~= seq![line@]);
                assert(r@ =~= line@);
            } else {
                assert(r@ =~= before + seq!['\n'] + line@);
            }
        }
        i = i + 1;
    }
    assert(all.take(ls@.len() - start) =~= all);
    r
}

/// The most lines the runner log keeps.
pub const LOG_KEEP_LINES: usize = 1000;

/// The last `n` lines of `ls` (all of them when there are fewer).
pub open spec fn last_lines(ls: Seq<Seq<char>>, n: int) -> Seq<Seq<char>> {
    if ls.len() > n {
        ls.skip(ls.len() - n)
    } else {
        ls
    }
}

/// The log `existing` with the message `msg` appended as a new line, cut to
/// its last `LOG_KEEP_LINES` lines.
pub open spec fn rolled_log_of(existing: Seq<char>, msg: Seq<char>) -> Seq<char> {
    let combined = if existing.len() == 0 { msg } else { existing + seq!['\n'] + msg };
    join_lines(last_lines(lines_of(combined), LOG_KEEP_LINES as int))
}

/// Appends `msg` to the log `existing` and keeps its last lines.
pub fn rolled_log(existing: &str, msg: &str) -> (r: String)
    ensures
        r@ == rolled_log_of(existing@, msg@),
{
    let mut combined = chars_of(existing);
    if combined.len() > 0 {
        combined.push('\n');
    }
    let m = chars_of(msg);
    let ghost head = combined@;
    let mut j: usize = 0;
    while j < m.len()
        invariant
            j <= m@.len(),
            combined@ == head + m@.take(j as int),
        decreases m@.len() - j,
    {
        combined.push(m[j]);
        j = j + 1;
        proof {
            assert(combined@ =~= head + m@.take(j as int));
        }
    }
    proof {
        assert(m@.take(m@.len() as int) =~= m@);
        if existing@.len() == 0 {
            assert(combined@ =~= msg@);
        } else {
            assert(combined@ =~= existing@ + seq!['\n'] + msg@);
        }
    }
    let ls = split_lines(&combined);
    let start: usize = if ls.len() > LOG_KEEP_LINES { ls.len() - LOG_KEEP_LINES } else { 0 };
    let out = join_from(&ls, start);
    proof {
        if start == 0 {
            assert(views(ls@).skip(0) =~= views(ls@));
        }
    }
    string_of(&out)
}


/// How far the rewrite of a configuration file has got: the lines written
/// so far, whether it is inside the `[polymarket]` section, whether it met
/// that section, and which of the three credentials it has written.
pub struct CredsRewrite {
    pub out: Seq<Seq<char>>,
    pub in_section: bool,
    pub found: bool,
    pub wrote_key: bool,
    pub wrote_secret: bool,
    pub wrote_pass: bool,
}

/// The line `name = "value"`.
pub open spec fn setting_line(name: Seq<char>, value: Seq<char>) -> Seq<char> {
    name + " = \""@ + value + "\""@
}

/// The rewrite after the credentials not yet written are written, in the
/// order key, secret, passphrase.
pub open spec fn flush_creds(st: CredsRewrite, key: Seq<char>, secret: Seq<char>, pass: Seq<char>) -> CredsRewrite {
    let o1 = if !st.wrote_key { st.out.push(key) } else { st.out };
    let o2 = if !st.wrote_secret { o1.push(secret) } else { o1 };
    let o3 = if !st.wrote_pass { o2.push(pass) } else { o2 };
    CredsRewrite { out: o3, wrote_key: true, wrote_secret: true, wrote_pass: true, ..st }
}

/// `t` (a line without its leading white space) sets `name`: it starts with
/// the name and holds an `=`.
pub open spec fn sets(t: Seq<char>, name: Seq<char>) -> bool {
    has_prefix(t, name) && has_infix(t, seq!['='])
}

/// The rewrite after one more line: a section header closes the
/// `[polymarket]` section (writing the credentials it lacked) and may open
/// it; inside it, a line that sets the key, the secret or the passphrase is
/// replaced by the new one; any other line is kept.
pub open spec fn rewrite_step(
    st: CredsRewrite,
    line: Seq<char>,
    key: Seq<char>,
    secret: Seq<char>,
    pass: Seq<char>,
) -> CredsRewrite {
    let t = line.skip(lead_white(line) as int);
    if t.len() > 0 && t[0] == '[' {
        let st1 = if st.in_section { flush_creds(st, key, secret, pass) } else { st };
        let opens = has_prefix(t, "[polymarket]"@);
        CredsRewrite { out: st1.out.push(line), in_section: opens, found: st1.found || opens, ..st1 }
    } else if st.in_section && sets(t, "api_key"@) {
        CredsRewrite { out: st.out.push(key), wrote_key: true, ..st }
    } else if st.in_section && sets(t, "secret"@) {
        CredsRewrite { out: st.out.push(secret), wrote_secret: true, ..st }
    } else if st.in_section && sets(t, "passphrase"@) {
        CredsRewrite { out: st.out.push(pass), wrote_pass: true, ..st }
    } else {
        CredsRewrite { out: st.out.push(line), ..st }
    }
}

/// The rewrite after the lines `ls`, from the start of the file.
pub open spec fn rewrite_lines(ls: Seq<Seq<char>>, key: Seq<char>, secret: Seq<char>, pass: Seq<char>) -> CredsRewrite
    decreases ls.len(),
{
    if ls.len() == 0 {
        CredsRewrite {
            out: Seq::empty(),
            in_section: false,
            found: false,
            wrote_key: false,
            wrote_secret: false,
            wrote_pass: false,
        }
    } else {
        rewrite_step(rewrite_lines(ls.drop_last(), key, secret, pass), ls.last(), key, secret, pass)
    }
}

/// The configuration `raw` with the Polymarket API key, secret and
/// passphrase replaced (or added at the end of the `[polymarket]` section),
/// everything else kept line for line, and a final newline kept; none when
/// the file has no `[polymarket]` section.
pub open spec fn patched_creds(raw: Seq<char>, api_key: Seq<char>, secret: Seq<char>, passphrase: Seq<char>) -> Option<Seq<char>> {
    let kl = setting_line("api_key"@, api_key);
    let sl = setting_line("secret"@, secret);
    let pl = setting_line("passphrase"@, passphrase);
    let st = rewrite_lines(lines_of(raw), kl, sl, pl);
    let fin = if st.in_section { flush_creds(st, kl, sl, pl) } else { st };
    if !fin.found {
        None
    } else {
        let j = join_lines(fin.out);
        Some(if raw.len() > 0 && raw.last() == '\n' && !(j.len() > 0 && j.last() == '\n') { j.push('\n') } else { j })
    }
}

/// Why the credentials could not be written into the configuration.
#[derive(Clone, Copy, Debug, PartialEq, Eq, Structural)]
pub enum CredsPatchError {
    /// The file has no `[polymarket]` section.
    SectionNotFound,
}

fn copy_line(v: &Vec<char>) -> (r: Vec<char>)
    ensures
        r@ == v@,
{
    let mut r: Vec<char> = Vec::new();
    let mut i: usize = 0;
    while i < v.len()
        invariant
            i <= v@.len(),
            r@ == v@.take(i as int),
        decreases v@.len() - i,
    {
        r.push(v[i]);
        i = i + 1;
        proof {
            assert(r@ =~= v@.take(i as int));
        }
    }
    assert(v@.take(v@.len() as int) =~= v@);
    r
}

fn text_vec(s: &str) -> (r: Vec<char>)
    ensures
        r@ == s@,
{
    chars_of(s)
}

fn setting_vec(name: &str, value: &str) -> (r: Vec<char>)
    ensures
        r@ == setting_line(name@, value@),
{
    let mut s = String::new();
    push_text(&mut s, name);
    push_text(&mut s, " = \"");
    push_text(&mut s, value);
    push_text(&mut s, "\"");
    chars_of(s.as_str())
}

fn flush_into(
    out: &mut Vec<Vec<char>>,
    wrote: (bool, bool, bool),
    key: &Vec<char>,
    secret: &Vec<char>,
    pass: &Vec<char>,
)
    ensures
        views(final(out)@) == flush_creds(
            CredsRewrite {
                out: views(old(out)@),
                in_section: true,
                found: true,
                wrote_key: wrote.0,
                wrote_secret: wrote.1,
                wrote_pass: wrote.2,
            },
            key@,
            secret@,
            pass@,
        ).out,
{
    let ghost o0 = views(out@);
    if !wrote.0 {
        out.push(copy_line(key));
    }
    let ghost o1 = views(out@);
    assert(o1 =~= if !wrote.0 { o0.push(key@) } else { o0 });
    if !wrote.1 {
        out.push(copy_line(secret));
    }
    let ghost o2 = views(out@);
    assert(o2 =~= if !wrote.1 { o1.push(secret@) } else { o1 });
    if !wrote.2 {
        out.push(copy_line(pass));
    }
    assert(views(out@) =~= if !wrote.2 { o2.push(pass@) } else { o2 });
}

/// Writes new Polymarket credentials into the configuration text `raw` (see
/// `patched_creds`).
pub fn patch_polymarket_creds(raw: &str, api_key: &str, secret: &str, passphrase: &str) -> (r: Result<String, CredsPatchError>)
    ensures
        match r {
            Ok(s) => patched_creds(raw@, api_key@, secret@, passphrase@) == Some(s@),
            Err(e) => patched_creds(raw@, api_key@, secret@, passphrase@) is None && e == CredsPatchError::SectionNotFound,
        },
{
    let kl = setting_vec("api_key", api_key);
    let sl = setting_vec("secret", secret);
    let pl = setting_vec("passphrase", passphrase);
    let raw_v = chars_of(raw);
    let ls = split_lines(&raw_v);
    let ghost lines = lines_of(raw@);
    let header = text_vec("[polymarket]");
    let k_name = text_vec("api_key");
    let s_name = text_vec("secret");
    let p_name = text_vec("passphrase");
    let eq = text_vec("=");
    proof {
        reveal_strlit("=");
    }
    let mut out: Vec<Vec<char>> = Vec::new();
    let mut in_section = false;
    let mut found = false;
    let mut wk = false;
    let mut ws = false;
    let mut wp = false;
    let mut i: usize = 0;
    assert(lines.take(0) =~= Seq::<Seq<char>>::empty());
    assert(views(out@) =~= Seq::<Seq<char>>::empty());
    while i < ls.len()
        invariant
            i <= ls@.len(),
            views(ls@) == lines,
            header@ == "[polymarket]"@,
            k_name@ == "api_key"@,
            s_name@ == "secret"@,
            p_name@ == "passphrase"@,
            eq@ == seq!['='],
            rewrite_lines(lines.take(i as int), kl@, sl@, pl@) == (CredsRewrite {
                out: views(out@),
                in_section,
                found,
                wrote_key: wk,
                wrote_secret: ws,
                wrote_pass: wp,
            }),
        decreases ls@.len() - i,
    {
        let line = &ls[i];
        proof {
            assert(lines.take(i as int + 1).drop_last() =~= lines.take(i as int));
            assert(lines.take(i as int + 1).last() == line@);
        }
        let t = trim_start_chars(line);
        let ghost before = views(out@);
        if t.len() > 0 && t[0] == '[' {
            if in_section {
                flush_into(&mut out, (wk, ws, wp), &kl, &sl, &pl);
                wk = true;
                ws = true;
                wp = true;
            }
            let ghost mid = views(out@);
            in_section = starts_with(&t, &header);
            if in_section {
                found = true;
            }
            out.push(copy_line(line));
            proof {
                assert(views(out@) =~= mid.push(line@));
            }
        } else if in_section && starts_with(&t, &k_name) && contains(&t, &eq) {
            out.push(copy_line(&kl));
            wk = true;
            proof {
                assert(views(out@) =~= before.push(kl@));
            }
        } else if in_section && starts_with(&t, &s_name) && contains(&t, &eq) {
            out.push(copy_line(&sl));
            ws = true;
            proof {
                assert(views(out@) =~= before.push(sl@));
            }
        } else if in_section && starts_with(&t, &p_name) && contains(&t, &eq) {
            out.push(copy_line(&pl));
            wp = true;
            proof {
                assert(views(out@) =~= before.push(pl@));
            }
        } else {
            out.push(copy_line(line));
            proof {
                assert(views(out@) =~= before.push(line@));
            }
        }
        proof {
            let st = rewrite_lines(lines.take(i as int), kl@, sl@, pl@);
            assert(rewrite_lines(lines.take(i as int + 1), kl@, sl@, pl@) == rewrite_step(st, line@, kl@, sl@, pl@));
            assert(t@ == line@.skip(lead_white(line@) as int));
        }
        i = i + 1;
    }
    proof {
        assert(lines.take(ls@.len() as int) =~= lines);
    }
    if in_section {
        flush_into(&mut out, (wk, ws, wp), &kl, &sl, &pl);
    }
    if !found {
        return Err(CredsPatchError::SectionNotFound);
    }
    let mut joined = join_from(&out, 0);
    proof {
        assert(views(out@).skip(0) =~= views(out@));
    }
    if raw_v.len() > 0 && raw_v[raw_v.len() - 1] == '\n' && !(joined.len() > 0 && joined[joined.len() - 1] == '\n') {
        joined.push('\n');
    }
    Ok(string_of(&joined))
}


/// The number of newlines in `s`.
pub open spec fn newlines(s: Seq<char>) -> nat
    decreases s.len(),
{
    if s.len() == 0 {
        0
    } else {
        newlines(s.drop_last()) + if s.last() == '\n' { 1nat } else { 0nat }
    }
}

proof fn lemma_newlines_concat(a: Seq<char>, b: Seq<char>)
    ensures
        newlines(a + b) == newlines(a) + newlines(b),
    decreases b.len(),
{
    if b.len() > 0 {
        lemma_newlines_concat(a, b.drop_last());
        assert((a + b).drop_last() =~= a + b.drop_last());
        assert((a + b).last() == b.last());
    } else {
        assert(a + b =~= a);
    }
}

proof fn lemma_newlines_first(s: Seq<char>)
    requires
        s.len() > 0,
    ensures
        newlines(s) == newlines(s.drop_first()) + if s[0] == '\n' { 1nat } else { 0nat },
{
    let one = seq![s[0]];
    assert(one.drop_last() =~= Seq::<char>::empty());
    assert(one.last() == s[0]);
    assert(newlines(one) == newlines(Seq::<char>::empty()) + if s[0] == '\n' { 1nat } else { 0nat });
    lemma_newlines_concat(one, s.drop_first());
    assert(one + s.drop_first() =~= s);
}

proof fn lemma_lines_from_count(s: Seq<char>, cur: Seq<char>)
    ensures
        lines_from(s, cur).len() <= newlines(s) + 1,
    decreases s.len(),
{
    if s.len() > 0 {
        lemma_newlines_first(s);
        if s[0] == '\n' {
            lemma_lines_from_count(s.drop_first(), Seq::empty());
        } else {
            lemma_lines_from_count(s.drop_first(), cur.push(s[0]));
        }
    }
}

/// `l` holds no newline.
pub open spec fn one_line(l: Seq<char>) -> bool {
    forall|i: int| 0 <= i < l.len() ==> l[i] != '\n'
}

proof fn lemma_lines_from_one_line(s: Seq<char>, cur: Seq<char>)
    requires
        one_line(cur),
    ensures
        forall|j: int| 0 <= j < lines_from(s, cur).len() ==> one_line(#[trigger] lines_from(s, cur)[j]),
    decreases s.len(),
{
    let all = lines_from(s, cur);
    if s.len() == 0 {
        if cur.len() > 0 {
            assert(all == seq![cur]);
        }
    } else if s[0] == '\n' {
        lemma_lines_from_one_line(s.drop_first(), Seq::empty());
        let rest = lines_from(s.drop_first(), Seq::empty());
        assert forall|i: int| 0 <= i < strip_cr(cur).len() implies strip_cr(cur)[i] != '\n' by {
            assert(strip_cr(cur)[i] == cur[i]);
        }
        assert(all == seq![strip_cr(cur)] + rest);
        assert forall|j: int| 0 <= j < all.len() implies one_line(#[trigger] all[j]) by {
            if j == 0 {
                assert(all[0] == strip_cr(cur));
            } else {
                assert(all[j] == rest[j - 1]);
            }
        }
    } else {
        let next = cur.push(s[0]);
        assert forall|i: int| 0 <= i < next.len() implies next[i] != '\n' by {
            if i < cur.len() {
                assert(next[i] == cur[i]);
            }
        }
        lemma_lines_from_one_line(s.drop_first(), next);
        assert(all == lines_from(s.drop_first(), next));
    }
}

proof fn lemma_join_newlines(ls: Seq<Seq<char>>)
    requires
        ls.len() > 0,
        forall|j: int| 0 <= j < ls.len() ==> one_line(#[trigger] ls[j]),
    ensures
        newlines(join_lines(ls)) == ls.len() - 1,
    decreases ls.len(),
{
    lemma_newlines_zero(ls.last());
    if ls.len() == 1 {
        lemma_newlines_zero(ls[0]);
    } else {
        let d = ls.drop_last();
        assert forall|j: int| 0 <= j < d.len() implies one_line(#[trigger] d[j]) by {
            assert(d[j] == ls[j]);
        }
        lemma_join_newlines(d);
        let nl = seq!['\n'];
        assert(nl.drop_last() =~= Seq::<char>::empty());
        assert(nl.last() == '\n');
        assert(newlines(Seq::<char>::empty()) == 0);
        assert(newlines(nl) == 1);
        lemma_newlines_concat(join_lines(d), nl);
        lemma_newlines_concat(join_lines(d) + nl, ls.last());
        assert(join_lines(ls) == join_lines(d) + nl + ls.last());
    }
}

proof fn lemma_newlines_zero(l: Seq<char>)
    requires
        one_line(l),
    ensures
        newlines(l) == 0,
    decreases l.len(),
{
    if l.len() > 0 {
        let d = l.drop_last();
        assert forall|i: int| 0 <= i < d.len() implies d[i] != '\n' by {
            assert(d[i] == l[i]);
        }
        lemma_newlines_zero(d);
        assert(l.last() == l[l.len() - 1]);
    }
}

/// The runner log never holds more than `LOG_KEEP_LINES` lines.
pub proof fn law_log_keeps_at_most_limit(existing: Seq<char>, msg: Seq<char>)
    ensures
        lines_of(rolled_log_of(existing, msg)).len() <= LOG_KEEP_LINES,
{
    let combined = if existing.len() == 0 { msg } else { existing + seq!['\n'] + msg };
    let all = lines_of(combined);
    let kept = last_lines(all, LOG_KEEP_LINES as int);
    lemma_lines_from_one_line(combined, Seq::empty());
    assert forall|j: int| 0 <= j < kept.len() implies one_line(#[trigger] kept[j]) by {
        if all.len() > LOG_KEEP_LINES {
            assert(kept[j] == all[j + (all.len() - LOG_KEEP_LINES)]);
        }
    }
    lemma_lines_from_count(join_lines(kept), Seq::empty());
    if kept.len() > 0 {
        lemma_join_newlines(kept);
    }
}

} // verus!
