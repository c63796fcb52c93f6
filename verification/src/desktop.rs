//! Desktop-entry text: rewriting an AppImage's bundled entry for
//! installation, reading entries back, and switching the sandbox on and off.
use vstd::prelude::*;
use crate::text::{
    contains, contains_str, ends_with, lines, matches_at, strip_cr, lines_exec, push_all, push_str, replace_all,
    replace_str, starts_with, starts_with_str, strip_prefixes, strip_prefixes_str, trim, trim_exec,
    equals_str, ends_with_str, from_chars, to_chars,
};

verus! {

/// The header of the main group of a desktop entry, with its line break.
pub open spec fn header_line() -> Seq<char> {
    "[Desktop Entry]\n"@
}

/// What the rewrite has learnt so far while walking the lines of an entry.
#[derive(Clone, Copy, Debug)]
pub struct EntryScan {
    pub in_entry: bool,
    pub has_type: bool,
    pub has_terminal: bool,
    pub has_categories: bool,
}

pub open spec fn initial_scan() -> EntryScan {
    EntryScan { in_entry: false, has_type: false, has_terminal: false, has_categories: false }
}

/// A trimmed line that opens a group: it starts with `[` and ends with `]`.
pub open spec fn is_group_header(t: Seq<char>) -> bool {
    starts_with(t, "["@) && ends_with(t, "]"@)
}

/// A trimmed line that carries a localised key such as `Name[de]=`.
pub open spec fn is_localized_key(t: Seq<char>) -> bool {
    contains(t, "["@) && contains(t, "]="@)
}

/// One line of the bundled entry: the scan state after it, and what it
/// contributes to the installed entry.
pub open spec fn rewrite_step(st: EntryScan, line: Seq<char>, exec: Seq<char>, icon: Seq<char>) -> (
    EntryScan,
    Seq<char>,
) {
    let t = trim(line);
    let nl = "\n"@;
    if t == "[Desktop Entry]"@ {
        (EntryScan { in_entry: true, ..st }, header_line())
    } else {
        let st1 = EntryScan { in_entry: if is_group_header(t) { false } else { st.in_entry }, ..st };
        if st1.in_entry {
            if is_localized_key(t) {
                (st1, Seq::empty())
            } else if starts_with(t, "Exec="@) {
                (st1, "Exec="@ + exec + nl)
            } else if starts_with(t, "Icon="@) {
                (st1, "Icon="@ + icon + nl)
            } else if starts_with(t, "Type="@) {
                (EntryScan { has_type: true, ..st1 }, t + nl)
            } else if starts_with(t, "Terminal="@) {
                (EntryScan { has_terminal: true, ..st1 }, t + nl)
            } else if starts_with(t, "Categories="@) {
                (EntryScan { has_categories: true, ..st1 }, t + nl)
            } else if starts_with(t, "TryExec="@) {
                (st1, Seq::empty())
            } else {
                (st1, line + nl)
            }
        } else {
            (st1, line + nl)
        }
    }
}

/// The lines `ls` walked from state `st`: the final state and the output.
pub open spec fn rewrite_lines(ls: Seq<Seq<char>>, st: EntryScan, exec: Seq<char>, icon: Seq<char>) -> (
    EntryScan,
    Seq<char>,
)
    decreases ls.len(),
{
    if ls.len() == 0 {
        (st, Seq::empty())
    } else {
        let (st1, out1) = rewrite_step(st, ls[0], exec, icon);
        let (st2, out2) = rewrite_lines(ls.drop_first(), st1, exec, icon);
        (st2, out1 + out2)
    }
}

/// Inserts `key` right after every `[Desktop Entry]` header line.
pub open spec fn insert_after_header(body: Seq<char>, key: Seq<char>) -> Seq<char> {
    replace_all(body, header_line(), header_line() + key)
}

/// The installed desktop entry made from a bundled one: inside
/// `[Desktop Entry]`, `Exec=` and `Icon=` take the given values, localised
/// keys and `TryExec=` are dropped, `Type=`, `Terminal=` and `Categories=`
/// are kept trimmed and supplied with defaults when absent; every other line
/// is kept as it was.
pub open spec fn rewrite_desktop(content: Seq<char>, exec: Seq<char>, icon: Seq<char>) -> Seq<char> {
    let (st, body) = rewrite_lines(lines(content), initial_scan(), exec, icon);
    let a = if st.has_type { body } else { insert_after_header(body, "Type=Application\n"@) };
    let b = if st.has_terminal { a } else { insert_after_header(a, "Terminal=false\n"@) };
    if st.has_categories { b } else { insert_after_header(b, "Categories=Utility;\n"@) }
}

fn insert_after_header_exec(body: &Vec<char>, key: &str) -> (r: Vec<char>)
    ensures
        r@ == insert_after_header(body@, key@),
{
    let hdr = to_chars("[Desktop Entry]\n");
    proof { reveal_strlit("[Desktop Entry]\n"); }
    let mut rep = to_chars("[Desktop Entry]\n");
    push_str(&mut rep, key);
    crate::text::replace_all_exec(body, &hdr, &rep)
}

fn rewrite_step_exec(st: EntryScan, line: &Vec<char>, exec: &Vec<char>, icon: &Vec<char>, out: &mut Vec<char>) -> (r: EntryScan)
    ensures
        (r, final(out)@.skip(old(out)@.len() as int)) == rewrite_step(st, line@, exec@, icon@),
        final(out)@.len() >= old(out)@.len(),
        final(out)@.take(old(out)@.len() as int) == old(out)@,
{
    let ghost start = out@;
    let t = trim_exec(line);
    let nl = "\n";
    let res: EntryScan;
    if equals_str(&t, "[Desktop Entry]") {
        push_str(out, "[Desktop Entry]\n");
        res = EntryScan { in_entry: true, ..st };
    } else {
        let header = starts_with_str(&t, "[") && ends_with_str(&t, "]");
        let st1 = EntryScan { in_entry: if header { false } else { st.in_entry }, ..st };
        if st1.in_entry {
            if contains_str(&t, "[") && contains_str(&t, "]=") {
                res = st1;
            } else if starts_with_str(&t, "Exec=") {
                push_str(out, "Exec=");
                push_all(out, exec);
                push_str(out, nl);
                res = st1;
            } else if starts_with_str(&t, "Icon=") {
                push_str(out, "Icon=");
                push_all(out, icon);
                push_str(out, nl);
                res = st1;
            } else if starts_with_str(&t, "Type=") {
                push_all(out, &t);
                push_str(out, nl);
                res = EntryScan { has_type: true, ..st1 };
            } else if starts_with_str(&t, "Terminal=") {
                push_all(out, &t);
                push_str(out, nl);
                res = EntryScan { has_terminal: true, ..st1 };
            } else if starts_with_str(&t, "Categories=") {
                push_all(out, &t);
                push_str(out, nl);
                res = EntryScan { has_categories: true, ..st1 };
            } else if starts_with_str(&t, "TryExec=") {
                res = st1;
            } else {
                push_all(out, line);
                push_str(out, nl);
                res = st1;
            }
        } else {
            push_all(out, line);
            push_str(out, nl);
            res = st1;
        }
    }
    assert(out@.take(start.len() as int) =~= start);
    assert(out@.skip(start.len() as int) =~= rewrite_step(st, line@, exec@, icon@).1);
    res
}

/// Writes the installed desktop entry for an AppImage from its bundled entry
/// `content`, launching with `exec` and showing `icon`.
pub fn rewrite_desktop_entry(content: &str, exec: &str, icon: &str) -> (r: String)
    ensures
        r@ == rewrite_desktop(content@, exec@, icon@),
{
    let ls = lines_exec(&to_chars(content));
    let ev = to_chars(exec);
    let iv = to_chars(icon);
    let ghost dv = ls.deep_view();
    let ghost total = rewrite_lines(dv, initial_scan(), ev@, iv@);
    let mut out: Vec<char> = Vec::new();
    let mut st = EntryScan { in_entry: false, has_type: false, has_terminal: false, has_categories: false };
    let n = ls.len();
    assert(dv.skip(0) =~= dv);
    assert(out@ + total.1 =~= total.1);
    for i in 0..n
        invariant
            n == ls.len(),
            dv == ls.deep_view(),
            total == rewrite_lines(dv, initial_scan(), ev@, iv@),
            rewrite_lines(dv.skip(i as int), st, ev@, iv@).0 == total.0,
            out@ + rewrite_lines(dv.skip(i as int), st, ev@, iv@).1 == total.1,
    {
        let ghost before = out@;
        let ghost rest = dv.skip(i as int);
        proof { crate::text::lemma_chars_deep_view(&ls[i as int]); }
        let st2 = rewrite_step_exec(st, &ls[i], &ev, &iv, &mut out);
        assert(rest[0] == ls@[i as int]@);
        assert(rest.drop_first() =~= dv.skip(i + 1));
        assert(out@ =~= out@.take(before.len() as int) + out@.skip(before.len() as int));
        assert(out@ + rewrite_lines(dv.skip(i + 1), st2, ev@, iv@).1 =~= before + rewrite_lines(rest, st, ev@, iv@).1);
        st = st2;
    }
    assert(dv.skip(n as int) =~= Seq::<Seq<char>>::empty());
    assert(out@ + Seq::<char>::empty() =~= out@);
    let mut body = out;
    if !st.has_type {
        body = insert_after_header_exec(&body, "Type=Application\n");
    }
    if !st.has_terminal {
        body = insert_after_header_exec(&body, "Terminal=false\n");
    }
    if !st.has_categories {
        body = insert_after_header_exec(&body, "Categories=Utility;\n");
    }
    from_chars(&body)
}

} // verus!

verus! {

/// The value of the first `Icon=` line (compared after trimming) whose value
/// is not empty, trimmed; empty when there is none.
pub open spec fn bundled_icon_name(ls: Seq<Seq<char>>) -> Seq<char>
    decreases ls.len(),
{
    if ls.len() == 0 {
        Seq::empty()
    } else if starts_with(trim(ls[0]), "Icon="@) && trim(strip_prefixes(trim(ls[0]), "Icon="@)).len() > 0 {
        trim(strip_prefixes(trim(ls[0]), "Icon="@))
    } else {
        bundled_icon_name(ls.drop_first())
    }
}

/// The icon name a bundled desktop entry names.
pub fn parse_icon_name(content: &str) -> (r: String)
    ensures
        r@ == bundled_icon_name(lines(content@)),
{
    let ls = lines_exec(&to_chars(content));
    let ghost dv = ls.deep_view();
    let n = ls.len();
    assert(dv.skip(0) =~= dv);
    for i in 0..n
        invariant
            n == ls.len(),
            dv == ls.deep_view(),
            dv == lines(content@),
            bundled_icon_name(dv) == bundled_icon_name(dv.skip(i as int)),
    {
        let ghost rest = dv.skip(i as int);
        proof { crate::text::lemma_chars_deep_view(&ls[i as int]); }
        assert(rest[0] == ls@[i as int]@);
        assert(rest.drop_first() =~= dv.skip(i + 1));
        let t = trim_exec(&ls[i]);
        if starts_with_str(&t, "Icon=") {
            proof { reveal_strlit("Icon="); }
            let v = trim_exec(&strip_prefixes_str(&t, "Icon="));
            if v.len() > 0 {
                return from_chars(&v);
            }
        }
    }
    assert(dv.skip(n as int) =~= Seq::<Seq<char>>::empty());
    String::new()
}

/// Some line starts with `Exec=` and mentions `firejail`.
pub open spec fn launches_sandboxed(ls: Seq<Seq<char>>) -> bool {
    exists|i: int| 0 <= i < ls.len() && starts_with(ls[i], "Exec="@) && contains(ls[i], "firejail"@)
}

/// Whether a desktop entry launches its program through Firejail.
pub fn uses_firejail(content: &str) -> (r: bool)
    ensures
        r == launches_sandboxed(lines(content@)),
{
    let ls = lines_exec(&to_chars(content));
    let ghost dv = ls.deep_view();
    let n = ls.len();
    for i in 0..n
        invariant
            n == ls.len(),
            dv == ls.deep_view(),
            dv == lines(content@),
            forall|j: int| 0 <= j < i ==> !(starts_with(dv[j], "Exec="@) && contains(dv[j], "firejail"@)),
    {
        proof { crate::text::lemma_chars_deep_view(&ls[i as int]); }
        assert(dv[i as int] == ls@[i as int]@);
        if starts_with_str(&ls[i], "Exec=") && contains_str(&ls[i], "firejail") {
            return true;
        }
    }
    false
}

/// The value of the first line that starts with `key`, with every leading
/// repetition of `key` removed.
pub open spec fn first_value(ls: Seq<Seq<char>>, key: Seq<char>) -> Option<Seq<char>>
    decreases ls.len(),
{
    if ls.len() == 0 {
        None
    } else if starts_with(ls[0], key) {
        Some(strip_prefixes(ls[0], key))
    } else {
        first_value(ls.drop_first(), key)
    }
}

fn first_value_exec(content: &str, key: &str) -> (r: Option<Vec<char>>)
    requires
        key@.len() > 0,
    ensures
        match r {
            Some(v) => first_value(lines(content@), key@) == Some(v@),
            None => first_value(lines(content@), key@) is None,
        },
{
    let ls = lines_exec(&to_chars(content));
    let ghost dv = ls.deep_view();
    let n = ls.len();
    assert(dv.skip(0) =~= dv);
    for i in 0..n
        invariant
            n == ls.len(),
            key@.len() > 0,
            dv == ls.deep_view(),
            dv == lines(content@),
            first_value(dv, key@) == first_value(dv.skip(i as int), key@),
    {
        let ghost rest = dv.skip(i as int);
        proof { crate::text::lemma_chars_deep_view(&ls[i as int]); }
        assert(rest[0] == ls@[i as int]@);
        assert(rest.drop_first() =~= dv.skip(i + 1));
        if starts_with_str(&ls[i], key) {
            return Some(strip_prefixes_str(&ls[i], key));
        }
    }
    assert(dv.skip(n as int) =~= Seq::<Seq<char>>::empty());
    None
}

/// The display name of an entry: the first `Name=` line's value.
pub fn first_name_value(content: &str) -> (r: Option<String>)
    ensures
        match r {
            Some(v) => first_value(lines(content@), "Name="@) == Some(v@),
            None => first_value(lines(content@), "Name="@) is None,
        },
{
    proof { reveal_strlit("Name="); }
    match first_value_exec(content, "Name=") {
        Some(v) => Some(from_chars(&v)),
        None => None,
    }
}

/// The icon an entry names: the first `Icon=` line's value, trimmed.
pub fn first_icon_value(content: &str) -> (r: Option<String>)
    ensures
        match r {
            Some(v) => match first_value(lines(content@), "Icon="@) {
                Some(x) => v@ == trim(x),
                None => false,
            },
            None => first_value(lines(content@), "Icon="@) is None,
        },
{
    proof { reveal_strlit("Icon="); }
    match first_value_exec(content, "Icon=") {
        Some(v) => Some(from_chars(&trim_exec(&v))),
        None => None,
    }
}

} // verus!

verus! {

/// The fields the library reads back from an installed desktop entry.
pub struct DesktopFields {
    pub name: Seq<char>,
    pub icon: Seq<char>,
    pub categories: Seq<Seq<char>>,
    pub sandboxed: bool,
}

/// The non-empty items of `ps`, in order.
pub open spec fn nonempty_pieces(ps: Seq<Seq<char>>) -> Seq<Seq<char>>
    decreases ps.len(),
{
    if ps.len() == 0 {
        seq![]
    } else if ps.last().len() > 0 {
        nonempty_pieces(ps.drop_last()).push(ps.last())
    } else {
        nonempty_pieces(ps.drop_last())
    }
}

/// What one line contributes: the last `Name=`, `Icon=` and `Categories=`
/// lines win, and any `Exec=` line that mentions `firejail` marks the entry
/// as sandboxed.
pub open spec fn read_step(f: DesktopFields, line: Seq<char>) -> DesktopFields {
    if starts_with(line, "Name="@) {
        DesktopFields { name: strip_prefixes(line, "Name="@), ..f }
    } else if starts_with(line, "Exec="@) {
        if contains(line, "firejail"@) {
            DesktopFields { sandboxed: true, ..f }
        } else {
            f
        }
    } else if starts_with(line, "Icon="@) {
        DesktopFields { icon: strip_prefixes(line, "Icon="@), ..f }
    } else if starts_with(line, "Categories="@) {
        DesktopFields {
            categories: nonempty_pieces(crate::text::split_on(strip_prefixes(line, "Categories="@), ';')),
            ..f
        }
    } else {
        f
    }
}

pub open spec fn read_lines(ls: Seq<Seq<char>>) -> DesktopFields
    decreases ls.len(),
{
    if ls.len() == 0 {
        DesktopFields { name: Seq::empty(), icon: Seq::empty(), categories: seq![], sandboxed: false }
    } else {
        read_step(read_lines(ls.drop_last()), ls.last())
    }
}

/// The fields of a desktop entry's text.
pub open spec fn read_desktop(content: Seq<char>) -> DesktopFields {
    read_lines(lines(content))
}

/// The fields read from a desktop entry.
pub struct DesktopInfo {
    pub name: String,
    pub icon_name: String,
    pub categories: Vec<String>,
    pub sandboxed: bool,
}

impl DesktopInfo {
    pub open spec fn fields(&self) -> DesktopFields {
        DesktopFields {
            name: self.name@,
            icon: self.icon_name@,
            categories: self.categories@.map_values(|c: String| c@),
            sandboxed: self.sandboxed,
        }
    }
}

fn nonempty_category_strings(ps: &Vec<Vec<char>>) -> (r: Vec<String>)
    ensures
        r@.map_values(|c: String| c@) == nonempty_pieces(ps.deep_view()),
{
    let ghost dv = ps.deep_view();
    let mut r: Vec<String> = Vec::new();
    let n = ps.len();
    assert(dv.take(0) =~= Seq::<Seq<char>>::empty());
    for i in 0..n
        invariant
            n == ps.len(),
            dv == ps.deep_view(),
            r@.map_values(|c: String| c@) == nonempty_pieces(dv.take(i as int)),
    {
        proof { crate::text::lemma_chars_deep_view(&ps[i as int]); }
        assert(dv.take(i + 1).drop_last() =~= dv.take(i as int));
        assert(dv.take(i + 1).last() == ps@[i as int]@);
        if ps[i].len() > 0 {
            let ghost before = r@;
            r.push(from_chars(&ps[i]));
            assert(r@.map_values(|c: String| c@) =~= before.map_values(|c: String| c@).push(ps@[i as int]@));
        }
    }
    assert(dv.take(n as int) =~= dv);
    r
}

/// Reads the name, icon, categories and sandbox state of a desktop entry.
pub fn parse_desktop_entry(content: &str) -> (r: DesktopInfo)
    ensures
        r.fields() == read_desktop(content@),
{
    let ls = lines_exec(&to_chars(content));
    let ghost dv = ls.deep_view();
    let mut name: Vec<char> = Vec::new();
    let mut icon: Vec<char> = Vec::new();
    let mut categories: Vec<String> = Vec::new();
    let mut sandboxed = false;
    let n = ls.len();
    assert(dv.take(0) =~= Seq::<Seq<char>>::empty());
    assert(categories@.map_values(|c: String| c@) =~= Seq::<Seq<char>>::empty());
    for i in 0..n
        invariant
            n == ls.len(),
            dv == ls.deep_view(),
            dv == lines(content@),
            read_lines(dv.take(i as int)) == (DesktopFields {
                name: name@,
                icon: icon@,
                categories: categories@.map_values(|c: String| c@),
                sandboxed,
            }),
    {
        proof { crate::text::lemma_chars_deep_view(&ls[i as int]); }
        assert(dv.take(i + 1).drop_last() =~= dv.take(i as int));
        assert(dv.take(i + 1).last() == ls@[i as int]@);
        let line = &ls[i];
        proof {
            reveal_strlit("Name=");
            reveal_strlit("Icon=");
            reveal_strlit("Categories=");
        }
        if starts_with_str(line, "Name=") {
            name = strip_prefixes_str(line, "Name=");
        } else if starts_with_str(line, "Exec=") {
            if contains_str(line, "firejail") {
                sandboxed = true;
            }
        } else if starts_with_str(line, "Icon=") {
            icon = strip_prefixes_str(line, "Icon=");
        } else if starts_with_str(line, "Categories=") {
            let value = strip_prefixes_str(line, "Categories=");
            let pieces = crate::text::split_on_exec(&value, ';');
            categories = nonempty_category_strings(&pieces);
        }
    }
    assert(dv.take(n as int) =~= dv);
    DesktopInfo { name: from_chars(&name), icon_name: from_chars(&icon), categories, sandboxed }
}

} // verus!

verus! {

/// The `Exec=` line after switching the sandbox on (`enable`) or off.
/// Switching on removes double quotes from the command and prefixes it with
/// `firejail --appimage ` when the command names an AppImage (compared in
/// lower case), with `firejail ` otherwise; switching off deletes every
/// `firejail --appimage ` and then every `firejail `. A line that already is
/// in the requested state is kept.
pub open spec fn toggled_exec_line(line: Seq<char>, enable: bool) -> Seq<char> {
    let cur = strip_prefixes(line, "Exec="@);
    let already = contains(cur, "firejail"@);
    if enable && !already {
        let clean = replace_all(cur, "\""@, Seq::empty());
        if contains(crate::text::unicode_lower(clean), ".appimage"@) {
            "Exec=firejail --appimage "@ + clean
        } else {
            "Exec=firejail "@ + clean
        }
    } else if !enable && already {
        "Exec="@ + replace_all(
            replace_all(cur, "firejail --appimage "@, Seq::empty()),
            "firejail "@,
            Seq::empty(),
        )
    } else {
        line
    }
}

pub open spec fn toggle_line(line: Seq<char>, enable: bool) -> Seq<char> {
    if starts_with(line, "Exec="@) {
        toggled_exec_line(line, enable)
    } else {
        line
    }
}

/// The desktop entry with its sandbox switched on or off: every line passes
/// through `toggle_line` and ends with a line break.
pub open spec fn toggled_entry(content: Seq<char>, enable: bool) -> Seq<char> {
    crate::text::join_lines(lines(content).map_values(|l: Seq<char>| toggle_line(l, enable)))
}

/// An `Exec=` line without Firejail whose command, without its double
/// quotes, names an AppImage: it holds `.appimage` in any ASCII letter case.
pub open spec fn appimage_launcher(line: Seq<char>) -> bool {
    &&& starts_with(line, "Exec="@)
    &&& !contains(strip_prefixes(line, "Exec="@), "firejail"@)
    &&& contains(crate::text::ascii_lower(unquoted_command(line)), ".appimage"@)
}

fn toggle_line_exec(line: &Vec<char>, enable: bool) -> (r: Vec<char>)
    ensures
        r@ == toggle_line(line@, enable),
        enable && appimage_launcher(line@) ==> r@ == "Exec=firejail --appimage "@ + unquoted_command(line@),
{
    proof {
        reveal_strlit("Exec=");
        reveal_strlit("\"");
        reveal_strlit("firejail --appimage ");
        reveal_strlit("firejail ");
        reveal_strlit("");
        assert(""@ =~= Seq::<char>::empty());
    }
    if !starts_with_str(line, "Exec=") {
        let mut r = Vec::new();
        push_all(&mut r, line);
        return r;
    }
    let cur = strip_prefixes_str(line, "Exec=");
    let already = contains_str(&cur, "firejail");
    if enable && !already {
        let clean = replace_str(&cur, "\"", "");
        let lowered = crate::text::lower_unicode(&clean);
        proof {
            if crate::text::contains(crate::text::ascii_lower(clean@), ".appimage"@) {
                crate::text::lemma_appimage_needle();
                let m = crate::text::lemma_ascii_witness(clean@, ".appimage"@);
                assert(contains(clean@, m));
                assert(contains(lowered@, crate::text::ascii_lower(m)));
            }
        }
        let mut r = Vec::new();
        if contains_str(&lowered, ".appimage") {
            push_str(&mut r, "Exec=firejail --appimage ");
        } else {
            push_str(&mut r, "Exec=firejail ");
        }
        push_all(&mut r, &clean);
        r
    } else if !enable && already {
        let a = replace_str(&cur, "firejail --appimage ", "");
        let b = replace_str(&a, "firejail ", "");
        let mut r = Vec::new();
        push_str(&mut r, "Exec=");
        push_all(&mut r, &b);
        r
    } else {
        let mut r = Vec::new();
        push_all(&mut r, line);
        r
    }
}

/// Switches the Firejail sandbox of a desktop entry on or off.
pub fn toggle_sandbox_content(content: &str, enable: bool) -> (r: String)
    ensures
        r@ == toggled_entry(content@, enable),
        lines(r@).len() == lines(content@).len(),
        enable ==> forall|i: int|
            0 <= i < lines(content@).len() && appimage_launcher(#[trigger] lines(content@)[i]) ==> lines(r@)[i]
                == strip_cr("Exec=firejail --appimage "@ + unquoted_command(lines(content@)[i])),
{
    let ls = lines_exec(&to_chars(content));
    let ghost dv = ls.deep_view();
    let ghost mapped = dv.map_values(|l: Seq<char>| toggle_line(l, enable));
    let mut out: Vec<char> = Vec::new();
    let n = ls.len();
    assert(mapped.take(0) =~= Seq::<Seq<char>>::empty());
    for i in 0..n
        invariant
            n == ls.len(),
            dv == ls.deep_view(),
            dv == lines(content@),
            mapped == dv.map_values(|l: Seq<char>| toggle_line(l, enable)),
            out@ == crate::text::join_lines(mapped.take(i as int)),
            enable ==> forall|j: int|
                0 <= j < i && appimage_launcher(#[trigger] dv[j]) ==> mapped[j] == "Exec=firejail --appimage "@
                    + unquoted_command(dv[j]),
    {
        proof { crate::text::lemma_chars_deep_view(&ls[i as int]); }
        let t = toggle_line_exec(&ls[i], enable);
        assert(mapped.take(i + 1).drop_last() =~= mapped.take(i as int));
        assert(mapped.take(i + 1).last() == t@);
        push_all(&mut out, &t);
        out.push('\n');
        assert(out@ =~= crate::text::join_lines(mapped.take(i as int)) + t@ + seq!['\n']);
    }
    assert(mapped.take(n as int) =~= mapped);
    proof {
        crate::text::lemma_lines_no_newline(content@);
        assert forall|k: int| 0 <= k < mapped.len() implies crate::text::no_newline(#[trigger] mapped[k]) by {
            lemma_toggle_line_no_newline(dv[k], enable);
        }
        crate::text::lemma_lines_of_join(mapped);
    }
    from_chars(&out)
}

} // verus!

verus! {

/// The entry written for a plain executable installed as `final_path`.
pub open spec fn executable_entry(file_name: Seq<char>, final_path: Seq<char>) -> Seq<char> {
    "[Desktop Entry]\nType=Application\nName="@ + file_name + "\nExec=\""@ + final_path
        + "\"\nTerminal=false\nCategories=Utility;\n"@
}

/// Writes the desktop entry for an installed executable.
pub fn executable_desktop_entry(file_name: &str, final_path: &str) -> (r: String)
    ensures
        r@ == executable_entry(file_name@, final_path@),
{
    let mut out = to_chars("[Desktop Entry]\nType=Application\nName=");
    push_str(&mut out, file_name);
    push_str(&mut out, "\nExec=\"");
    push_str(&mut out, final_path);
    push_str(&mut out, "\"\nTerminal=false\nCategories=Utility;\n");
    from_chars(&out)
}

/// The entry with which the manager registers itself when it runs as the
/// AppImage `appimage_path`.
pub open spec fn self_entry(appimage_path: Seq<char>) -> Seq<char> {
    "[Desktop Entry]\nType=Application\nName=Linuxy\nComment=Application Manager\nExec=\""@
        + appimage_path + "\" %U\nIcon=linuxy\nTerminal=false\nCategories=Utility;\n"@
}

/// Writes the manager's own desktop entry.
pub fn self_desktop_entry(appimage_path: &str) -> (r: String)
    ensures
        r@ == self_entry(appimage_path@),
{
    let mut out = to_chars(
        "[Desktop Entry]\nType=Application\nName=Linuxy\nComment=Application Manager\nExec=\"",
    );
    push_str(&mut out, appimage_path);
    push_str(&mut out, "\" %U\nIcon=linuxy\nTerminal=false\nCategories=Utility;\n");
    from_chars(&out)
}

/// The command of a restored entry: the program, behind
/// `firejail --appimage ` when it was sandboxed.
pub open spec fn restored_exec(exec: Seq<char>, sandboxed: bool) -> Seq<char> {
    if sandboxed {
        "firejail --appimage "@ + exec
    } else {
        exec
    }
}

/// The entry written back for an application restored from a library
/// backup.
pub open spec fn backup_entry(
    name: Seq<char>,
    exec: Seq<char>,
    icon: Seq<char>,
    categories: Seq<Seq<char>>,
    sandboxed: bool,
) -> Seq<char> {
    "[Desktop Entry]\nType=Application\nName="@ + name + "\nExec="@ + restored_exec(exec, sandboxed)
        + "\nIcon="@ + icon + "\nTerminal=false\nCategories="@ + crate::text::join_with(
        categories,
        ";"@,
    ) + "\n"@
}

/// Writes the desktop entry of an application restored from a backup.
pub fn backup_desktop_entry(
    name: &str,
    exec: &str,
    icon: &str,
    categories: &Vec<String>,
    sandboxed: bool,
) -> (r: String)
    ensures
        r@ == backup_entry(name@, exec@, icon@, categories@.map_values(|c: String| c@), sandboxed),
{
    let mut cats: Vec<Vec<char>> = Vec::new();
    let n = categories.len();
    for i in 0..n
        invariant
            n == categories.len(),
            cats.deep_view() =~= categories@.map_values(|c: String| c@).take(i as int),
    {
        let c = to_chars(categories[i].as_str());
        let ghost before = cats@;
        cats.push(c);
        proof { crate::text::lemma_push_deep_view(before, &cats, &c); }
    }
    assert(categories@.map_values(|c: String| c@).take(n as int) =~= categories@.map_values(|c: String| c@));
    let joined = crate::text::join_with_exec(&cats, &to_chars(";"));
    let mut out = to_chars("[Desktop Entry]\nType=Application\nName=");
    push_str(&mut out, name);
    push_str(&mut out, "\nExec=");
    if sandboxed {
        push_str(&mut out, "firejail --appimage ");
    }
    push_str(&mut out, exec);
    push_str(&mut out, "\nIcon=");
    push_str(&mut out, icon);
    push_str(&mut out, "\nTerminal=false\nCategories=");
    push_all(&mut out, &joined);
    push_str(&mut out, "\n");
    from_chars(&out)
}

} // verus!

verus! {

/// Some line starts with `Exec=`.
pub open spec fn has_exec_line(ls: Seq<Seq<char>>) -> bool {
    exists|i: int| 0 <= i < ls.len() && starts_with(ls[i], "Exec="@)
}

proof fn lemma_suffix_contains(l: Seq<char>, cur: Seq<char>, p: Seq<char>)
    requires
        cur.len() <= l.len(),
        cur == l.skip(l.len() - cur.len()),
        contains(cur, p),
    ensures
        contains(l, p),
{
    let j = choose|j: int| matches_at(cur, j, p);
    let off = l.len() - cur.len();
    assert(l.subrange(j + off, j + off + p.len()) =~= cur.subrange(j, j + p.len()));
    assert(matches_at(l, j + off, p));
}

proof fn lemma_prefix_of_strip_cr(l: Seq<char>, p: Seq<char>)
    requires
        starts_with(strip_cr(l), p),
    ensures
        starts_with(l, p),
{
    let t = strip_cr(l);
    assert(l.subrange(0, p.len() as int) =~= t.subrange(0, p.len() as int));
}

proof fn lemma_toggle_line_no_newline(l: Seq<char>, enable: bool)
    requires
        crate::text::no_newline(l),
    ensures
        crate::text::no_newline(toggle_line(l, enable)),
{
    reveal_strlit("Exec=");
    reveal_strlit("firejail --appimage ");
    reveal_strlit("firejail ");
    reveal_strlit("Exec=firejail --appimage ");
    reveal_strlit("Exec=firejail ");
    reveal_strlit("\"");
    reveal_strlit("");
    if starts_with(l, "Exec="@) {
        let cur = strip_prefixes(l, "Exec="@);
        crate::text::lemma_strip_prefixes_suffix(l, "Exec="@);
        assert(crate::text::no_newline(cur)) by {
            assert forall|i: int| 0 <= i < cur.len() implies cur[i] != '\n' by {
                assert(cur[i] == l[i + l.len() - cur.len()]);
            }
        }
        assert(crate::text::no_newline(Seq::<char>::empty()));
        assert(crate::text::no_newline(""@));
        crate::text::lemma_replace_no_newline(cur, "\""@, Seq::empty());
        let a = replace_all(cur, "firejail --appimage "@, Seq::empty());
        crate::text::lemma_replace_no_newline(cur, "firejail --appimage "@, Seq::empty());
        crate::text::lemma_replace_no_newline(a, "firejail "@, Seq::empty());
        let t = toggle_line(l, enable);
        let clean = replace_all(cur, "\""@, Seq::empty());
        assert forall|i: int| 0 <= i < t.len() implies t[i] != '\n' by {
            if enable && !contains(cur, "firejail"@) {
                if contains(crate::text::unicode_lower(clean), ".appimage"@) {
                    if i >= 25 {
                        assert(t[i] == clean[i - 25]);
                    }
                } else {
                    if i >= 14 {
                        assert(t[i] == clean[i - 14]);
                    }
                }
            } else if !enable && contains(cur, "firejail"@) {
                if i >= 5 {
                    assert(t[i] == replace_all(a, "firejail "@, Seq::empty())[i - 5]);
                }
            }
        }
    }
}

proof fn lemma_enabled_line(l: Seq<char>)
    requires
        crate::text::no_newline(l),
    ensures
        (starts_with(strip_cr(toggle_line(l, true)), "Exec="@) && contains(strip_cr(toggle_line(l, true)), "firejail"@))
            == starts_with(l, "Exec="@),
{
    reveal_strlit("Exec=");
    reveal_strlit("firejail");
    reveal_strlit("Exec=firejail --appimage ");
    reveal_strlit("Exec=firejail ");
    let t = toggle_line(l, true);
    if starts_with(l, "Exec="@) {
        let cur = strip_prefixes(l, "Exec="@);
        crate::text::lemma_strip_prefixes_suffix(l, "Exec="@);
        if contains(cur, "firejail"@) {
            assert(t == l);
            lemma_suffix_contains(l, cur, "firejail"@);
            let j = choose|j: int| matches_at(l, j, "firejail"@);
            crate::text::lemma_matches_strip_cr(l, 0, "Exec="@);
            crate::text::lemma_matches_strip_cr(l, j, "firejail"@);
        } else {
            assert(matches_at(t, 0, "Exec="@)) by {
                assert(t.subrange(0, 5) =~= "Exec="@);
            }
            assert(matches_at(t, 5, "firejail"@)) by {
                assert(t.subrange(5, 13) =~= "firejail"@);
            }
            crate::text::lemma_matches_strip_cr(t, 0, "Exec="@);
            crate::text::lemma_matches_strip_cr(t, 5, "firejail"@);
        }
    } else {
        assert(t == l);
        if starts_with(strip_cr(t), "Exec="@) {
            lemma_prefix_of_strip_cr(l, "Exec="@);
        }
    }
}

/// Law: switching the sandbox on makes every launcher of the entry go
/// through Firejail, so the entry reads back as sandboxed (the state the
/// listing shows and the launcher acts on) exactly when it has an `Exec=`
/// line at all.
pub proof fn law_enabling_sandbox_sandboxes(content: Seq<char>)
    ensures
        launches_sandboxed(lines(toggled_entry(content, true))) == has_exec_line(lines(content)),
        read_desktop(toggled_entry(content, true)).sandboxed == has_exec_line(lines(content)),
{
    let ls = lines(content);
    let mapped = ls.map_values(|l: Seq<char>| toggle_line(l, true));
    crate::text::lemma_lines_no_newline(content);
    assert forall|i: int| 0 <= i < mapped.len() implies crate::text::no_newline(#[trigger] mapped[i]) by {
        lemma_toggle_line_no_newline(ls[i], true);
    }
    crate::text::lemma_lines_of_join(mapped);
    let out = lines(toggled_entry(content, true));
    assert(out == mapped.map_values(|p: Seq<char>| strip_cr(p)));
    assert forall|i: int| 0 <= i < out.len() implies ((starts_with(out[i], "Exec="@) && contains(out[i], "firejail"@))
        == starts_with(ls[i], "Exec="@)) by {
        lemma_enabled_line(ls[i]);
    }
    if has_exec_line(ls) {
        let i = choose|i: int| 0 <= i < ls.len() && starts_with(ls[i], "Exec="@);
        assert(starts_with(out[i], "Exec="@) && contains(out[i], "firejail"@));
    }
    if launches_sandboxed(out) {
        let i = choose|i: int| 0 <= i < out.len() && starts_with(out[i], "Exec="@) && contains(out[i], "firejail"@);
        assert(starts_with(ls[i], "Exec="@));
    }
    lemma_read_sandboxed(out);
}

/// The command of an `Exec=` line, behind the key, as switching the sandbox
/// on writes it after `firejail`: without double quotes.
pub open spec fn unquoted_command(line: Seq<char>) -> Seq<char> {
    replace_all(strip_prefixes(line, "Exec="@), "\""@, Seq::empty())
}

/// An `Exec=` line whose command, with and without its double quotes, does
/// not mention Firejail.
pub open spec fn plain_launcher(line: Seq<char>) -> bool {
    &&& !contains(strip_prefixes(line, "Exec="@), "firejail"@)
    &&& !contains(unquoted_command(line), "firejail"@)
}

/// Switching off a sandbox put around a command without Firejail leaves a
/// command without Firejail.
proof fn lemma_disable_wrapped(pre: Seq<char>, c: Seq<char>)
    requires
        pre == "firejail --appimage "@ || pre == "firejail "@,
        !contains(c, "firejail"@),
    ensures
        !contains(
            replace_all(
                replace_all(pre + c, "firejail --appimage "@, Seq::empty()),
                "firejail "@,
                Seq::empty(),
            ),
            "firejail"@,
        ),
{
    reveal_strlit("firejail");
    reveal_strlit("firejail --appimage ");
    reveal_strlit("firejail ");
    reveal_strlit("--appimage ");
    let a = "firejail --appimage "@;
    let b = "firejail "@;
    let e = Seq::<char>::empty();
    assert(starts_with(a, "firejail"@)) by {
        assert(a.subrange(0, 8) =~= "firejail"@);
    }
    assert(starts_with(b, "firejail"@)) by {
        assert(b.subrange(0, 8) =~= "firejail"@);
    }
    crate::text::lemma_no_longer_match(c, "firejail"@, a);
    crate::text::lemma_no_longer_match(c, "firejail"@, b);
    crate::text::lemma_replace_absent(c, a, e);
    crate::text::lemma_replace_absent(c, b, e);
    if pre == a {
        crate::text::lemma_replace_leading(a, c, e);
        assert(e + c =~= c);
    } else if starts_with(c, "--appimage "@) {
        let rest = c.skip(11);
        assert(pre + c =~= a + rest) by {
            assert(c =~= "--appimage "@ + rest) by {
                assert(c.subrange(0, 11) =~= "--appimage "@);
            }
            assert(a =~= b + "--appimage "@);
        }
        crate::text::lemma_no_match_in_suffix(c, "firejail"@, 11);
        crate::text::lemma_no_longer_match(rest, "firejail"@, a);
        crate::text::lemma_no_longer_match(rest, "firejail"@, b);
        crate::text::lemma_replace_absent(rest, a, e);
        crate::text::lemma_replace_absent(rest, b, e);
        crate::text::lemma_replace_leading(a, rest, e);
        assert(e + rest =~= rest);
    } else {
        let s = b + c;
        assert(!contains(s, a)) by {
            if contains(s, a) {
                let j = choose|j: int| matches_at(s, j, a);
                if j == 0 {
                    assert(c.subrange(0, 11) =~= s.subrange(9, 20));
                    assert(s.subrange(9, 20) =~= a.subrange(9, 20));
                    assert(a.subrange(9, 20) =~= "--appimage "@);
                } else {
                    assert(s.subrange(j, j + 20)[0] == s[j]);
                    if j < 9 {
                        assert(s[j] == b[j]);
                    } else {
                        assert(s.subrange(j, j + 20) =~= c.subrange(j - 9, j + 11));
                        assert(matches_at(c, j - 9, a));
                    }
                }
            }
        }
        crate::text::lemma_replace_absent(s, a, e);
        crate::text::lemma_replace_leading(b, c, e);
        assert(e + c =~= c);
    }
}

/// One line switched on, read back, switched off and read back again: it
/// launches nothing through Firejail.
proof fn lemma_round_trip_line(l: Seq<char>)
    requires
        crate::text::no_newline(l),
        starts_with(l, "Exec="@) ==> plain_launcher(l),
    ensures
        !(starts_with(strip_cr(toggle_line(strip_cr(toggle_line(l, true)), false)), "Exec="@) && contains(
            strip_cr(toggle_line(strip_cr(toggle_line(l, true)), false)),
            "firejail"@,
        )),
{
    reveal_strlit("Exec=");
    reveal_strlit("firejail");
    reveal_strlit("firejail --appimage ");
    reveal_strlit("firejail ");
    reveal_strlit("Exec=firejail --appimage ");
    reveal_strlit("Exec=firejail ");
    let ex = "Exec="@;
    let t = toggle_line(l, true);
    let u = strip_cr(t);
    let f = strip_cr(toggle_line(u, false));
    if starts_with(l, ex) {
        let c = unquoted_command(l);
        let pre = if contains(crate::text::unicode_lower(c), ".appimage"@) {
            "firejail --appimage "@
        } else {
            "firejail "@
        };
        assert(t =~= ex + (pre + c));
        assert(ex + (pre + c) =~= (ex + pre) + c);
        crate::text::lemma_strip_cr_behind(ex + pre, c);
        let c2 = strip_cr(c);
        assert(u =~= ex + (pre + c2));
        crate::text::lemma_no_match_in_prefix(c, "firejail"@, c2.len() as int);
        assert(c2 =~= c.take(c2.len() as int));
        assert(pre[0] == 'f');
        assert(!starts_with(pre + c2, ex)) by {
            lemma_not_prefix(pre + c2, ex);
        }
        crate::text::lemma_strip_prefix_once(ex, pre + c2);
        assert(matches_at(pre + c2, 0, "firejail"@)) by {
            assert((pre + c2).subrange(0, 8) =~= "firejail"@);
        }
        assert(u.subrange(0, 5) =~= ex);
        lemma_disable_wrapped(pre, c2);
        let r = replace_all(
            replace_all(pre + c2, "firejail --appimage "@, Seq::empty()),
            "firejail "@,
            Seq::empty(),
        );
        let v = toggle_line(u, false);
        assert(v == ex + r);
        crate::text::lemma_no_match_behind(ex, r, "firejail"@);
        crate::text::lemma_strip_cr_behind(ex, r);
        crate::text::lemma_no_match_in_prefix(r, "firejail"@, strip_cr(r).len() as int);
        assert(strip_cr(r) =~= r.take(strip_cr(r).len() as int));
        crate::text::lemma_no_match_behind(ex, strip_cr(r), "firejail"@);
    } else {
        assert(t == l);
        if starts_with(u, ex) {
            lemma_prefix_of_strip_cr(l, ex);
        }
        assert(toggle_line(u, false) == u);
        if starts_with(f, ex) {
            lemma_prefix_of_strip_cr(u, ex);
        }
    }
}

/// Law: switching the sandbox on and then off again leaves an entry whose
/// launchers do not go through Firejail, so it reads back as not sandboxed,
/// with as many lines as before. This holds where no launcher command
/// mentions Firejail already, with or without its double quotes (such a
/// launcher is kept as it is when switching on, and switching off only
/// removes `firejail ` with its space).
pub proof fn law_disabling_after_enabling_unsandboxes(content: Seq<char>)
    requires
        forall|i: int|
            0 <= i < lines(content).len() && starts_with(#[trigger] lines(content)[i], "Exec="@)
                ==> plain_launcher(lines(content)[i]),
    ensures
        !launches_sandboxed(lines(toggled_entry(toggled_entry(content, true), false))),
        !read_desktop(toggled_entry(toggled_entry(content, true), false)).sandboxed,
        lines(toggled_entry(toggled_entry(content, true), false)).len() == lines(content).len(),
{
    let ls = lines(content);
    crate::text::lemma_lines_no_newline(content);
    let m1 = ls.map_values(|l: Seq<char>| toggle_line(l, true));
    assert forall|i: int| 0 <= i < m1.len() implies crate::text::no_newline(#[trigger] m1[i]) by {
        lemma_toggle_line_no_newline(ls[i], true);
    }
    crate::text::lemma_lines_of_join(m1);
    let mid = toggled_entry(content, true);
    let u = lines(mid);
    assert(u == m1.map_values(|p: Seq<char>| strip_cr(p)));
    let m2 = u.map_values(|l: Seq<char>| toggle_line(l, false));
    assert forall|i: int| 0 <= i < m2.len() implies crate::text::no_newline(#[trigger] m2[i]) by {
        assert(crate::text::no_newline(u[i])) by {
            assert forall|k: int| 0 <= k < u[i].len() implies u[i][k] != '\n' by {
                assert(u[i][k] == m1[i][k]);
            }
        }
        lemma_toggle_line_no_newline(u[i], false);
    }
    crate::text::lemma_lines_of_join(m2);
    let out = lines(toggled_entry(mid, false));
    assert(out == m2.map_values(|p: Seq<char>| strip_cr(p)));
    assert forall|i: int| 0 <= i < out.len() implies !(starts_with(#[trigger] out[i], "Exec="@) && contains(
        out[i],
        "firejail"@,
    )) by {
        lemma_round_trip_line(ls[i]);
    }
    lemma_read_sandboxed(out);
}

/// An `Exec=` line whose command switching the sandbox on and off gives
/// back unchanged: it holds no double quote (switching on drops them) and
/// no `firejail`, and begins neither with `--appimage ` nor with another
/// `Exec=` (switching off would drop that too).
pub open spec fn restorable_launcher(line: Seq<char>) -> bool {
    let v = line.skip(5);
    &&& !contains(v, "\""@)
    &&& !contains(v, "firejail"@)
    &&& !starts_with(v, "--appimage "@)
    &&& !starts_with(v, "Exec="@)
}

/// Switching off a sandbox put around a command without Firejail that does
/// not begin with `--appimage ` gives the command back.
proof fn lemma_disable_wrapped_exact(pre: Seq<char>, c: Seq<char>)
    requires
        pre == "firejail --appimage "@ || pre == "firejail "@,
        !contains(c, "firejail"@),
        !starts_with(c, "--appimage "@),
    ensures
        replace_all(
            replace_all(pre + c, "firejail --appimage "@, Seq::empty()),
            "firejail "@,
            Seq::empty(),
        ) == c,
{
    reveal_strlit("firejail");
    reveal_strlit("firejail --appimage ");
    reveal_strlit("firejail ");
    reveal_strlit("--appimage ");
    let a = "firejail --appimage "@;
    let b = "firejail "@;
    let e = Seq::<char>::empty();
    assert(starts_with(a, "firejail"@)) by {
        assert(a.subrange(0, 8) =~= "firejail"@);
    }
    assert(starts_with(b, "firejail"@)) by {
        assert(b.subrange(0, 8) =~= "firejail"@);
    }
    crate::text::lemma_no_longer_match(c, "firejail"@, a);
    crate::text::lemma_no_longer_match(c, "firejail"@, b);
    crate::text::lemma_replace_absent(c, a, e);
    crate::text::lemma_replace_absent(c, b, e);
    if pre == a {
        crate::text::lemma_replace_leading(a, c, e);
        assert(e + c =~= c);
    } else {
        let s = b + c;
        assert(!contains(s, a)) by {
            if contains(s, a) {
                let j = choose|j: int| matches_at(s, j, a);
                if j == 0 {
                    assert(c.subrange(0, 11) =~= s.subrange(9, 20));
                    assert(s.subrange(9, 20) =~= a.subrange(9, 20));
                    assert(a.subrange(9, 20) =~= "--appimage "@);
                } else {
                    assert(s.subrange(j, j + 20)[0] == s[j]);
                    if j < 9 {
                        assert(s[j] == b[j]);
                    } else {
                        assert(s.subrange(j, j + 20) =~= c.subrange(j - 9, j + 11));
                        assert(matches_at(c, j - 9, a));
                    }
                }
            }
        }
        crate::text::lemma_replace_absent(s, a, e);
        crate::text::lemma_replace_leading(b, c, e);
        assert(e + c =~= c);
    }
}

/// One line switched on, read back and switched off is the line again.
proof fn lemma_round_trip_line_exact(l: Seq<char>)
    requires
        crate::text::no_cr(l),
        starts_with(l, "Exec="@) ==> restorable_launcher(l),
    ensures
        strip_cr(toggle_line(l, true)) == toggle_line(l, true),
        toggle_line(toggle_line(l, true), false) == l,
{
    reveal_strlit("Exec=");
    reveal_strlit("firejail");
    reveal_strlit("firejail --appimage ");
    reveal_strlit("firejail ");
    reveal_strlit("Exec=firejail --appimage ");
    reveal_strlit("Exec=firejail ");
    reveal_strlit("\"");
    let ex = "Exec="@;
    let t = toggle_line(l, true);
    if starts_with(l, ex) {
        let v = l.skip(5);
        assert(l =~= ex + v) by {
            assert(l.subrange(0, 5) =~= ex);
        }
        crate::text::lemma_strip_prefix_once(ex, v);
        crate::text::lemma_replace_absent(v, "\""@, Seq::empty());
        assert(unquoted_command(l) == v);
        let pre = if contains(crate::text::unicode_lower(v), ".appimage"@) {
            "firejail --appimage "@
        } else {
            "firejail "@
        };
        assert(t =~= ex + (pre + v));
        if v.len() > 0 {
            assert(t.last() == v.last());
            assert(v.last() == l[l.len() - 1]);
        } else {
            assert(t.last() == ' ');
        }
        assert(pre[0] == 'f');
        lemma_not_prefix(pre + v, ex);
        crate::text::lemma_strip_prefix_once(ex, pre + v);
        assert(matches_at(pre + v, 0, "firejail"@)) by {
            assert((pre + v).subrange(0, 8) =~= "firejail"@);
        }
        assert(t.subrange(0, 5) =~= ex);
        lemma_disable_wrapped_exact(pre, v);
    } else {
        if l.len() > 0 {
            assert(l.last() == l[l.len() - 1]);
        }
    }
}

/// Law: switching the sandbox off after switching it on gives the entry
/// back as it was, byte for byte, for an entry with line feeds only, ending
/// in one (or empty), whose `Exec=` commands hold no double quote and no
/// `firejail` and begin neither with `--appimage ` nor with another
/// `Exec=`. (Switching on drops double quotes and ends every line with a
/// line feed; switching off drops every `firejail ` and a leading
/// `--appimage ` behind it.)
pub proof fn law_disabling_after_enabling_restores(content: Seq<char>)
    requires
        crate::text::no_cr(content),
        content.len() == 0 || content.last() == '\n',
        forall|i: int|
            0 <= i < lines(content).len() && starts_with(#[trigger] lines(content)[i], "Exec="@)
                ==> restorable_launcher(lines(content)[i]),
    ensures
        toggled_entry(toggled_entry(content, true), false) == content,
{
    let ls = lines(content);
    crate::text::lemma_join_of_lines(content);
    crate::text::lemma_lines_no_newline(content);
    let m1 = ls.map_values(|l: Seq<char>| toggle_line(l, true));
    assert forall|i: int| 0 <= i < m1.len() implies crate::text::no_newline(#[trigger] m1[i]) by {
        lemma_toggle_line_no_newline(ls[i], true);
    }
    crate::text::lemma_lines_of_join(m1);
    let mid = toggled_entry(content, true);
    assert forall|i: int| 0 <= i < ls.len() implies strip_cr(#[trigger] m1[i]) == m1[i] && toggle_line(m1[i], false)
        == ls[i] by {
        lemma_round_trip_line_exact(ls[i]);
    }
    assert(lines(mid) =~= m1);
    let m2 = lines(mid).map_values(|l: Seq<char>| toggle_line(l, false));
    assert(m2 =~= ls);
}

/// Switching a line's sandbox on twice is switching it on once.
proof fn lemma_enable_line_twice(l: Seq<char>)
    ensures
        toggle_line(toggle_line(l, true), true) == toggle_line(l, true),
{
    reveal_strlit("Exec=");
    reveal_strlit("firejail");
    reveal_strlit("firejail --appimage ");
    reveal_strlit("firejail ");
    reveal_strlit("Exec=firejail --appimage ");
    reveal_strlit("Exec=firejail ");
    let ex = "Exec="@;
    if starts_with(l, ex) && !contains(strip_prefixes(l, ex), "firejail"@) {
        let c = unquoted_command(l);
        let pre = if contains(crate::text::unicode_lower(c), ".appimage"@) {
            "firejail --appimage "@
        } else {
            "firejail "@
        };
        let t = toggle_line(l, true);
        assert(t =~= ex + (pre + c));
        assert(pre[0] == 'f');
        lemma_not_prefix(pre + c, ex);
        crate::text::lemma_strip_prefix_once(ex, pre + c);
        assert(matches_at(pre + c, 0, "firejail"@)) by {
            assert((pre + c).subrange(0, 8) =~= "firejail"@);
        }
        assert(t.subrange(0, 5) =~= ex);
    }
}

/// Law: switching the sandbox on twice writes what switching it on once
/// writes: a launcher that already goes through Firejail is kept. This holds
/// unless a switched line ends in a carriage return, which reading the
/// written entry back drops.
pub proof fn law_enabling_twice_is_enabling_once(content: Seq<char>)
    requires
        forall|i: int|
            0 <= i < lines(content).len() ==> strip_cr(#[trigger] toggle_line(lines(content)[i], true))
                == toggle_line(lines(content)[i], true),
    ensures
        toggled_entry(toggled_entry(content, true), true) == toggled_entry(content, true),
{
    let ls = lines(content);
    crate::text::lemma_lines_no_newline(content);
    let m1 = ls.map_values(|l: Seq<char>| toggle_line(l, true));
    assert forall|i: int| 0 <= i < m1.len() implies crate::text::no_newline(#[trigger] m1[i]) by {
        lemma_toggle_line_no_newline(ls[i], true);
    }
    crate::text::lemma_lines_of_join(m1);
    let mid = toggled_entry(content, true);
    assert(lines(mid) =~= m1) by {
        assert forall|i: int| 0 <= i < m1.len() implies strip_cr(m1[i]) == m1[i] by {
            assert(strip_cr(toggle_line(ls[i], true)) == toggle_line(ls[i], true));
        }
    }
    let m2 = lines(mid).map_values(|l: Seq<char>| toggle_line(l, true));
    assert(m2 =~= m1) by {
        assert forall|i: int| 0 <= i < m1.len() implies m2[i] == m1[i] by {
            lemma_enable_line_twice(ls[i]);
        }
    }
}

/// Reading an entry marks it sandboxed exactly when some launcher goes
/// through Firejail.
pub proof fn lemma_read_sandboxed(ls: Seq<Seq<char>>)
    ensures
        read_lines(ls).sandboxed == launches_sandboxed(ls),
    decreases ls.len(),
{
    reveal_strlit("Name=");
    reveal_strlit("Exec=");
    if ls.len() > 0 {
        let init = ls.drop_last();
        lemma_read_sandboxed(init);
        let l = ls.last();
        if starts_with(l, "Name="@) {
            assert(!starts_with(l, "Exec="@)) by {
                assert(l.subrange(0, 5)[0] == l[0]);
                assert("Name="@[0] == 'N');
                assert("Exec="@[0] == 'E');
            }
        }
        if launches_sandboxed(ls) {
            let i = choose|i: int| 0 <= i < ls.len() && starts_with(ls[i], "Exec="@) && contains(ls[i], "firejail"@);
            if i < init.len() {
                assert(init[i] == ls[i]);
            }
        }
        if launches_sandboxed(init) {
            let i = choose|i: int| 0 <= i < init.len() && starts_with(init[i], "Exec="@) && contains(init[i], "firejail"@);
            assert(init[i] == ls[i]);
        }
    }
}

} // verus!

verus! {

proof fn lemma_not_prefix(s: Seq<char>, p: Seq<char>)
    requires
        s.len() > 0,
        p.len() > 0,
        s[0] != p[0],
    ensures
        !starts_with(s, p),
{
    if starts_with(s, p) {
        assert(s.subrange(0, p.len() as int)[0] == s[0]);
    }
}

proof fn lemma_join_avoids(cs: Seq<Seq<char>>, c: char)
    requires
        c != ';',
        forall|i: int, j: int| 0 <= i < cs.len() && 0 <= j < cs[i].len() ==> cs[i][j] != c,
    ensures
        forall|j: int| 0 <= j < crate::text::join_with(cs, ";"@).len() ==> crate::text::join_with(cs, ";"@)[j] != c,
    decreases cs.len(),
{
    reveal_strlit(";");
    if cs.len() > 1 {
        let rest = cs.drop_first();
        assert forall|i: int, j: int| 0 <= i < rest.len() && 0 <= j < rest[i].len() implies rest[i][j] != c by {
            assert(rest[i] == cs[i + 1]);
        }
        lemma_join_avoids(rest, c);
        let s = crate::text::join_with(cs, ";"@);
        let a = cs[0];
        assert forall|j: int| 0 <= j < s.len() implies s[j] != c by {
            if j < a.len() {
                assert(s[j] == a[j]);
            } else if j == a.len() {
                assert(s[j] == ';');
            } else {
                assert(s[j] == crate::text::join_with(rest, ";"@)[j - a.len() - 1]);
            }
        }
    } else if cs.len() == 1 {
        assert(crate::text::join_with(cs, ";"@) == cs[0]);
    }
}

proof fn lemma_nonempty_pieces_keep(cs: Seq<Seq<char>>)
    requires
        forall|i: int| 0 <= i < cs.len() ==> cs[i].len() > 0,
    ensures
        nonempty_pieces(cs) == cs,
    decreases cs.len(),
{
    if cs.len() > 0 {
        lemma_nonempty_pieces_keep(cs.drop_last());
        assert(cs.drop_last().push(cs.last()) =~= cs);
    }
}

/// A value that stays whole on its line and is read back whole: it holds no
/// line feed and does not end in a carriage return.
pub open spec fn one_value(s: Seq<char>) -> bool {
    crate::text::no_newline(s) && (s.len() == 0 || s.last() != '\r')
}

/// The items of a non-empty sequence, joined, end as its last item ends.
proof fn lemma_join_last(cs: Seq<Seq<char>>, sep: Seq<char>)
    requires
        cs.len() > 0,
        cs.last().len() > 0,
    ensures
        crate::text::join_with(cs, sep).len() > 0,
        crate::text::join_with(cs, sep).last() == cs.last().last(),
    decreases cs.len(),
{
    if cs.len() > 1 {
        let rest = cs.drop_first();
        assert(rest.last() == cs.last());
        lemma_join_last(rest, sep);
    }
}

/// The fixed texts of a restored entry are whole values.
proof fn lemma_literal_values()
    ensures
        one_value("[Desktop Entry]"@),
        one_value("Type=Application"@),
        one_value("Terminal=false"@),
        "Name="@.len() > 0 && one_value("Name="@) && "Name="@.last() != '\r',
        "Exec="@.len() > 0 && one_value("Exec="@) && "Exec="@.last() != '\r',
        "Icon="@.len() > 0 && one_value("Icon="@) && "Icon="@.last() != '\r',
        "Categories="@.len() > 0 && one_value("Categories="@) && "Categories="@.last() != '\r',
        "firejail --appimage "@.len() > 0 && one_value("firejail --appimage "@) && "firejail --appimage "@.last() != '\r',
{
    reveal_strlit("[Desktop Entry]");
    reveal_strlit("Type=Application");
    reveal_strlit("Terminal=false");
    reveal_strlit("Name=");
    reveal_strlit("Exec=");
    reveal_strlit("Icon=");
    reveal_strlit("Categories=");
    reveal_strlit("firejail --appimage ");
    assert("[Desktop Entry]"@ =~= seq!['[', 'D', 'e', 's', 'k', 't', 'o', 'p', ' ', 'E', 'n', 't', 'r', 'y', ']']);
    assert("Type=Application"@ =~= seq!['T', 'y', 'p', 'e', '=', 'A', 'p', 'p', 'l', 'i', 'c', 'a', 't', 'i', 'o', 'n']);
    assert("Terminal=false"@ =~= seq!['T', 'e', 'r', 'm', 'i', 'n', 'a', 'l', '=', 'f', 'a', 'l', 's', 'e']);
    assert("Name="@ =~= seq!['N', 'a', 'm', 'e', '=']);
    assert("Exec="@ =~= seq!['E', 'x', 'e', 'c', '=']);
    assert("Icon="@ =~= seq!['I', 'c', 'o', 'n', '=']);
    assert("Categories="@ =~= seq!['C', 'a', 't', 'e', 'g', 'o', 'r', 'i', 'e', 's', '=']);
    assert("firejail --appimage "@ =~= seq!['f', 'i', 'r', 'e', 'j', 'a', 'i', 'l', ' ', '-', '-', 'a', 'p', 'p', 'i', 'm', 'a', 'g', 'e', ' ']);
}

/// A key followed by a whole value is a whole value.
proof fn lemma_keyed_line(key: Seq<char>, v: Seq<char>)
    requires
        key.len() > 0,
        one_value(key),
        key.last() != '\r',
        one_value(v),
    ensures
        one_value(key + v),
{
    let s = key + v;
    assert forall|i: int| 0 <= i < s.len() implies s[i] != '\n' by {
        if i < key.len() {
            assert(s[i] == key[i]);
        } else {
            assert(s[i] == v[i - key.len()]);
        }
    }
    if v.len() > 0 {
        assert(s.last() == v.last());
    } else {
        assert(s.last() == key.last());
    }
}

/// A restored entry is its seven lines, each followed by a line feed.
#[verifier::spinoff_prover]
proof fn lemma_backup_joined(
    name: Seq<char>,
    exec: Seq<char>,
    icon: Seq<char>,
    categories: Seq<Seq<char>>,
    sandboxed: bool,
)
    ensures
        backup_entry(name, exec, icon, categories, sandboxed) == crate::text::join_lines(
            seq![
                "[Desktop Entry]"@,
                "Type=Application"@,
                "Name="@ + name,
                "Exec="@ + restored_exec(exec, sandboxed),
                "Icon="@ + icon,
                "Terminal=false"@,
                "Categories="@ + crate::text::join_with(categories, ";"@),
            ],
        ),
{
    reveal_strlit("[Desktop Entry]\nType=Application\nName=");
    reveal_strlit("\nExec=");
    reveal_strlit("\nIcon=");
    reveal_strlit("\nTerminal=false\nCategories=");
    reveal_strlit("\n");
    reveal_strlit(";");
    reveal_strlit("[Desktop Entry]");
    reveal_strlit("Type=Application");
    reveal_strlit("Name=");
    reveal_strlit("Exec=");
    reveal_strlit("Icon=");
    reveal_strlit("Terminal=false");
    reveal_strlit("Categories=");
    reveal_strlit("firejail --appimage ");
    let j = crate::text::join_with(categories, ";"@);
    let e = restored_exec(exec, sandboxed);
    let l0 = "[Desktop Entry]"@;
    let l1 = "Type=Application"@;
    let l2 = "Name="@ + name;
    let l3 = "Exec="@ + e;
    let l4 = "Icon="@ + icon;
    let l5 = "Terminal=false"@;
    let l6 = "Categories="@ + j;
    let ls = seq![l0, l1, l2, l3, l4, l5, l6];
    reveal_with_fuel(crate::text::join_lines, 8);
    assert(backup_entry(name, exec, icon, categories, sandboxed) =~= crate::text::join_lines(ls)) by {
        assert(ls.drop_last().drop_last().drop_last().drop_last().drop_last().drop_last().drop_last() =~= Seq::<Seq<char>>::empty());
    }
}

/// The lines of a restored entry, each read back whole.
#[verifier::spinoff_prover]
proof fn lemma_backup_lines(
    name: Seq<char>,
    exec: Seq<char>,
    icon: Seq<char>,
    categories: Seq<Seq<char>>,
    sandboxed: bool,
)
    requires
        one_value(name),
        one_value(exec),
        one_value(icon),
        forall|i: int| 0 <= i < categories.len() ==> #[trigger] categories[i].len() > 0,
        forall|i: int, j: int|
            0 <= i < categories.len() && 0 <= j < categories[i].len() ==> categories[i][j] != ';'
                && categories[i][j] != '\n',
        categories.len() > 0 ==> categories.last().last() != '\r',
        categories.len() > 0 ==> !starts_with(categories[0], "Categories="@),
        !starts_with(name, "Name="@),
        !starts_with(icon, "Icon="@),
        !sandboxed ==> !contains(exec, "firejail"@),
    ensures
        lines(backup_entry(name, exec, icon, categories, sandboxed)) == seq![
            "[Desktop Entry]"@,
            "Type=Application"@,
            "Name="@ + name,
            "Exec="@ + restored_exec(exec, sandboxed),
            "Icon="@ + icon,
            "Terminal=false"@,
            "Categories="@ + crate::text::join_with(categories, ";"@),
        ],
{
    let j = crate::text::join_with(categories, ";"@);
    let e = restored_exec(exec, sandboxed);
    let ls = seq![
        "[Desktop Entry]"@,
        "Type=Application"@,
        "Name="@ + name,
        "Exec="@ + e,
        "Icon="@ + icon,
        "Terminal=false"@,
        "Categories="@ + j,
    ];
    lemma_backup_joined(name, exec, icon, categories, sandboxed);
    lemma_join_avoids(categories, '\n');
    if categories.len() > 0 {
        lemma_join_last(categories, ";"@);
    }
    assert(one_value(j));
    lemma_literal_values();
    if sandboxed {
        lemma_keyed_line("firejail --appimage "@, exec);
    }
    assert(one_value(e));
    lemma_keyed_line("Name="@, name);
    lemma_keyed_line("Exec="@, e);
    lemma_keyed_line("Icon="@, icon);
    lemma_keyed_line("Categories="@, j);
    assert forall|k: int| 0 <= k < ls.len() implies one_value(#[trigger] ls[k]) by {}
    assert forall|k: int| 0 <= k < ls.len() implies crate::text::no_newline(#[trigger] ls[k]) by {
        assert(one_value(ls[k]));
    }
    crate::text::lemma_lines_of_join(ls);
    assert(ls.map_values(|p: Seq<char>| strip_cr(p)) =~= ls) by {
        assert forall|k: int| 0 <= k < ls.len() implies strip_cr(ls[k]) == ls[k] by {
            assert(one_value(ls[k]));
        }
    }
}


/// The joined categories do not begin with their key.
proof fn lemma_categories_not_keyed(categories: Seq<Seq<char>>)
    requires
        forall|i: int, j: int|
            0 <= i < categories.len() && 0 <= j < categories[i].len() ==> categories[i][j] != ';',
        categories.len() > 0 ==> !starts_with(categories[0], "Categories="@),
    ensures
        !starts_with(crate::text::join_with(categories, ";"@), "Categories="@),
{
    reveal_strlit("Categories=");
    reveal_strlit(";");
    let key = "Categories="@;
    let j = crate::text::join_with(categories, ";"@);
    if categories.len() > 0 {
        let c0 = categories[0];
        let t = if categories.len() == 1 {
            Seq::<char>::empty()
        } else {
            ";"@ + crate::text::join_with(categories.drop_first(), ";"@)
        };
        assert(j =~= c0 + t);
        if starts_with(j, key) {
            assert(key =~= seq!['C', 'a', 't', 'e', 'g', 'o', 'r', 'i', 'e', 's', '=']);
            if c0.len() >= 11 {
                assert(c0.subrange(0, 11) =~= j.subrange(0, 11));
                assert(starts_with(c0, key));
            } else if categories.len() == 1 {
                assert(j.len() == c0.len());
            } else {
                let n = c0.len() as int;
                assert(";"@ =~= seq![';']);
                assert(t[0] == ';');
                assert(j[n] == ';');
                assert(j.subrange(0, 11)[n] == j[n]);
                assert(key[n] != ';');
            }
        }
    }
}


/// Law: an application restored from a backup reads back as it was saved:
/// the restored entry yields the saved name, icon, categories and sandbox
/// state. This holds for a name, command and icon that stay whole on their
/// line, a name and icon that do not themselves begin with their key
/// (reading strips every repetition of it), categories that are non-empty,
/// hold no `;` and no line feed, the last not ending in a carriage return
/// and the first not beginning with `Categories=`, and, for an unsandboxed
/// application, a command that does not mention `firejail`.
#[verifier::spinoff_prover]
pub proof fn law_restored_entry_reads_back(
    name: Seq<char>,
    exec: Seq<char>,
    icon: Seq<char>,
    categories: Seq<Seq<char>>,
    sandboxed: bool,
)
    requires
        one_value(name),
        one_value(exec),
        one_value(icon),
        forall|i: int| 0 <= i < categories.len() ==> #[trigger] categories[i].len() > 0,
        forall|i: int, j: int|
            0 <= i < categories.len() && 0 <= j < categories[i].len() ==> categories[i][j] != ';'
                && categories[i][j] != '\n',
        categories.len() > 0 ==> categories.last().last() != '\r',
        categories.len() > 0 ==> !starts_with(categories[0], "Categories="@),
        !starts_with(name, "Name="@),
        !starts_with(icon, "Icon="@),
        !sandboxed ==> !contains(exec, "firejail"@),
    ensures
        read_desktop(backup_entry(name, exec, icon, categories, sandboxed)) == (DesktopFields {
            name,
            icon,
            categories,
            sandboxed,
        }),
{
    reveal_strlit("[Desktop Entry]\nType=Application\nName=");
    reveal_strlit("\nExec=");
    reveal_strlit("\nIcon=");
    reveal_strlit("\nTerminal=false\nCategories=");
    reveal_strlit("\n");
    reveal_strlit("firejail --appimage ");
    reveal_strlit("firejail");
    reveal_strlit(";");
    reveal_strlit("[Desktop Entry]");
    reveal_strlit("Type=Application");
    reveal_strlit("Name=");
    reveal_strlit("Exec=");
    reveal_strlit("Icon=");
    reveal_strlit("Terminal=false");
    reveal_strlit("Categories=");
    let j = crate::text::join_with(categories, ";"@);
    let e = restored_exec(exec, sandboxed);
    let l0 = "[Desktop Entry]"@;
    let l1 = "Type=Application"@;
    let l2 = "Name="@ + name;
    let l3 = "Exec="@ + e;
    let l4 = "Icon="@ + icon;
    let l5 = "Terminal=false"@;
    let l6 = "Categories="@ + j;
    let ls = seq![l0, l1, l2, l3, l4, l5, l6];
    lemma_backup_lines(name, exec, icon, categories, sandboxed);
    // which key each line carries
    lemma_not_prefix(l0, "Name="@);
    lemma_not_prefix(l0, "Exec="@);
    lemma_not_prefix(l0, "Icon="@);
    lemma_not_prefix(l0, "Categories="@);
    lemma_not_prefix(l1, "Name="@);
    lemma_not_prefix(l1, "Exec="@);
    lemma_not_prefix(l1, "Icon="@);
    lemma_not_prefix(l1, "Categories="@);
    assert(starts_with(l2, "Name="@)) by {
        assert(l2.subrange(0, 5) =~= "Name="@);
    }
    crate::text::lemma_strip_prefix_once("Name="@, name);
    lemma_not_prefix(l3, "Name="@);
    assert(starts_with(l3, "Exec="@)) by {
        assert(l3.subrange(0, 5) =~= "Exec="@);
    }
    if sandboxed {
        assert(matches_at(l3, 5, "firejail"@)) by {
            assert(l3.subrange(5, 13) =~= "firejail"@);
        }
    } else {
        assert(e == exec);
        crate::text::lemma_no_match_behind("Exec="@, exec, "firejail"@);
    }
    lemma_not_prefix(l4, "Name="@);
    lemma_not_prefix(l4, "Exec="@);
    assert(starts_with(l4, "Icon="@)) by {
        assert(l4.subrange(0, 5) =~= "Icon="@);
    }
    crate::text::lemma_strip_prefix_once("Icon="@, icon);
    lemma_not_prefix(l5, "Name="@);
    lemma_not_prefix(l5, "Exec="@);
    lemma_not_prefix(l5, "Icon="@);
    lemma_not_prefix(l5, "Categories="@);
    lemma_not_prefix(l6, "Name="@);
    lemma_not_prefix(l6, "Exec="@);
    lemma_not_prefix(l6, "Icon="@);
    assert(starts_with(l6, "Categories="@)) by {
        assert(l6.subrange(0, 11) =~= "Categories="@);
    }
    lemma_categories_not_keyed(categories);
    crate::text::lemma_strip_prefix_once("Categories="@, j);
    if categories.len() > 0 {
        assert(";"@ =~= seq![';']);
        crate::text::lemma_split_join(categories, ';');
        lemma_nonempty_pieces_keep(categories);
        assert(j == crate::text::join_with(categories, seq![';']));
        assert(nonempty_pieces(crate::text::split_on(j, ';')) == categories);
    } else {
        assert(j =~= Seq::<char>::empty());
        crate::text::lemma_first_index_of(j, ';');
        assert(crate::text::split_on(j, ';') =~= seq![Seq::<char>::empty()]);
        let one = seq![Seq::<char>::empty()];
        assert(one.last() == Seq::<char>::empty());
        assert(one.drop_last() =~= Seq::<Seq<char>>::empty());
        assert(nonempty_pieces(one) == nonempty_pieces(one.drop_last()));
        assert(nonempty_pieces(one) =~= Seq::<Seq<char>>::empty());
        assert(nonempty_pieces(crate::text::split_on(j, ';')) =~= categories);
    }
    let f0 = DesktopFields { name: Seq::empty(), icon: Seq::empty(), categories: seq![], sandboxed: false };
    assert(ls.take(0) =~= Seq::<Seq<char>>::empty());
    assert(read_lines(ls.take(0)) == f0);
    assert(ls.take(1).drop_last() =~= ls.take(0));
    assert(ls.take(1).last() == l0);
    assert(read_lines(ls.take(1)) == f0);
    assert(ls.take(2).drop_last() =~= ls.take(1));
    assert(ls.take(2).last() == l1);
    assert(read_lines(ls.take(2)) == f0);
    let f3 = DesktopFields { name, ..f0 };
    assert(ls.take(3).drop_last() =~= ls.take(2));
    assert(ls.take(3).last() == l2);
    assert(read_lines(ls.take(3)) == f3);
    let f4 = DesktopFields { name, sandboxed, ..f0 };
    assert(ls.take(4).drop_last() =~= ls.take(3));
    assert(ls.take(4).last() == l3);
    assert(read_lines(ls.take(4)) == f4);
    let f5 = DesktopFields { name, icon, sandboxed, ..f0 };
    assert(ls.take(5).drop_last() =~= ls.take(4));
    assert(ls.take(5).last() == l4);
    assert(read_lines(ls.take(5)) == f5);
    assert(ls.take(6).drop_last() =~= ls.take(5));
    assert(ls.take(6).last() == l5);
    assert(read_lines(ls.take(6)) == f5);
    assert(ls.take(7).drop_last() =~= ls.take(6));
    assert(ls.take(7).last() == l6);
    assert(read_lines(ls.take(7)) == (DesktopFields { name, icon, categories, sandboxed }));
    assert(ls.take(7) =~= ls);
}

} // verus!

verus! {

/// `w` stands in `s` at `p` as a whole line: right after a line break.
pub open spec fn line_at(s: Seq<char>, p: int, w: Seq<char>) -> bool {
    p > 0 && s[p - 1] == '\n' && matches_at(s, p, w)
}

proof fn lemma_header_facts()
    ensures
        header_line().len() == 16,
        header_line()[9] == 'E',
        header_line()[10] == 'n',
        header_line()[15] == '\n',
        forall|k: int| 0 <= k < 15 ==> header_line()[k] != '\n',
        forall|k: int| 0 <= k < 16 && k != 9 ==> header_line()[k] != 'E',
{
    reveal_strlit("[Desktop Entry]\n");
    assert(header_line() =~= seq!['[', 'D', 'e', 's', 'k', 't', 'o', 'p', ' ', 'E', 'n', 't', 'r', 'y', ']', '\n']);
}

/// Replacing every occurrence of the header within a launcher line gives
/// the line back, possibly followed by the inserted key.
proof fn lemma_insert_in_line(w: Seq<char>, key: Seq<char>)
    requires
        w.len() > 0,
        forall|m: int| matches_at(w, m, header_line()) ==> m + header_line().len() == w.len(),
    ensures
        replace_all(w, header_line(), header_line() + key).len() >= w.len(),
        replace_all(w, header_line(), header_line() + key).take(w.len() as int) == w,
{
    let h = header_line();
    let r = h + key;
    lemma_header_facts();
    if !contains(w, h) {
        crate::text::lemma_replace_absent(w, h, r);
        assert(w.take(w.len() as int) =~= w);
    } else {
        let m0 = choose|m: int| matches_at(w, m, h);
        assert(m0 + 16 == w.len());
        let u = w.take(m0);
        assert forall|m: int| 0 <= m < m0 < m + h.len() implies !matches_at(w, m, h) by {}
        crate::text::lemma_replace_split(w, h, r, m0);
        assert(w.skip(m0) =~= h);
        crate::text::lemma_replace_whole(h, r);
        assert(!contains(u, h)) by {
            if contains(u, h) {
                let m1 = choose|m: int| matches_at(u, m, h);
                assert(w.subrange(m1, m1 + 16) =~= u.subrange(m1, m1 + 16));
                assert(matches_at(w, m1, h));
            }
        }
        crate::text::lemma_replace_absent(u, h, r);
        assert(u + r =~= w + key);
        assert((w + key).take(w.len() as int) =~= w);
    }
}

/// Inserting a key after every header keeps a launcher line whole, as long
/// as no header ends inside it.
proof fn lemma_insert_keeps_line(s: Seq<char>, key: Seq<char>, w: Seq<char>, p: int)
    requires
        key.len() > 0,
        key.last() == '\n',
        w.len() >= 2,
        w[0] == 'E',
        w[1] == 'x',
        w.last() == '\n',
        forall|m: int| matches_at(w, m, header_line()) ==> m + header_line().len() == w.len(),
        line_at(s, p, w),
    ensures
        exists|q: int| line_at(insert_after_header(s, key), q, w),
{
    let h = header_line();
    let r = h + key;
    lemma_header_facts();
    assert forall|m: int| 0 <= m < p < m + h.len() implies !matches_at(s, m, h) by {
        if matches_at(s, m, h) {
            assert(s[p] == s.subrange(m, m + 16)[p - m]);
            assert(s[p] == s.subrange(p, p + w.len())[0]);
            if p - m == 9 {
                assert(s[p + 1] == s.subrange(m, m + 16)[p + 1 - m]);
                assert(s[p + 1] == s.subrange(p, p + w.len())[1]);
            }
        }
    }
    crate::text::lemma_replace_split(s, h, r, p);
    let a = s.take(p);
    let b = s.skip(p);
    let n = w.len() as int;
    assert(b.take(n) =~= w);
    assert forall|m: int| 0 <= m < n < m + h.len() implies !matches_at(b, m, h) by {
        if matches_at(b, m, h) {
            assert(b[n - 1] == b.subrange(m, m + 16)[n - 1 - m]);
            assert(b[n - 1] == w[n - 1]);
        }
    }
    crate::text::lemma_replace_split(b, h, r, n);
    lemma_insert_in_line(w, key);
    assert(a.last() == s[p - 1]);
    crate::text::lemma_replace_keeps_final_newline(a, h, r);
    let ra = replace_all(a, h, r);
    let rw = replace_all(w, h, r);
    let rc = replace_all(b.skip(n), h, r);
    let out = insert_after_header(s, key);
    assert(out =~= ra + (rw + rc));
    let q = ra.len() as int;
    assert(out[q - 1] == ra.last());
    assert(out.subrange(q, q + n) =~= rw.take(n));
    assert(line_at(out, q, w));
}

/// Walking two runs of lines one after the other.
proof fn lemma_rewrite_concat(a: Seq<Seq<char>>, b: Seq<Seq<char>>, st: EntryScan, exec: Seq<char>, icon: Seq<char>)
    ensures
        rewrite_lines(a + b, st, exec, icon).0 == rewrite_lines(b, rewrite_lines(a, st, exec, icon).0, exec, icon).0,
        rewrite_lines(a + b, st, exec, icon).1 == rewrite_lines(a, st, exec, icon).1 + rewrite_lines(
            b,
            rewrite_lines(a, st, exec, icon).0,
            exec,
            icon,
        ).1,
    decreases a.len(),
{
    if a.len() == 0 {
        assert(a + b =~= b);
        assert(Seq::<char>::empty() + rewrite_lines(b, st, exec, icon).1 =~= rewrite_lines(b, st, exec, icon).1);
    } else {
        let (st1, o1) = rewrite_step(st, a[0], exec, icon);
        assert((a + b)[0] == a[0]);
        assert((a + b).drop_first() =~= a.drop_first() + b);
        lemma_rewrite_concat(a.drop_first(), b, st1, exec, icon);
        let oa = rewrite_lines(a.drop_first(), st1, exec, icon);
        let ob = rewrite_lines(b, oa.0, exec, icon);
        assert(o1 + (oa.1 + ob.1) =~= (o1 + oa.1) + ob.1);
    }
}

/// What one line contributes is empty or ends in a line break, and the
/// header line contributes itself.
proof fn lemma_step_output(st: EntryScan, line: Seq<char>, exec: Seq<char>, icon: Seq<char>)
    ensures
        rewrite_step(st, line, exec, icon).1.len() == 0 || rewrite_step(st, line, exec, icon).1.last() == '\n',
        trim(line) == "[Desktop Entry]"@ ==> rewrite_step(st, line, exec, icon).1 == header_line(),
{
    lemma_header_facts();
    reveal_strlit("\n");
    reveal_strlit("Exec=");
    reveal_strlit("Icon=");
}

/// The rewritten text ends in a line break, and is not empty once the
/// header line has been walked.
proof fn lemma_rewrite_output(ls: Seq<Seq<char>>, st: EntryScan, exec: Seq<char>, icon: Seq<char>)
    ensures
        rewrite_lines(ls, st, exec, icon).1.len() == 0 || rewrite_lines(ls, st, exec, icon).1.last() == '\n',
        (exists|k: int| 0 <= k < ls.len() && trim(ls[k]) == "[Desktop Entry]"@) ==> rewrite_lines(
            ls,
            st,
            exec,
            icon,
        ).1.len() > 0,
    decreases ls.len(),
{
    if ls.len() > 0 {
        let (st1, o1) = rewrite_step(st, ls[0], exec, icon);
        lemma_step_output(st, ls[0], exec, icon);
        let rest = ls.drop_first();
        lemma_rewrite_output(rest, st1, exec, icon);
        let orest = rewrite_lines(rest, st1, exec, icon).1;
        if orest.len() > 0 {
            assert((o1 + orest).last() == orest.last());
        } else {
            assert(o1 + orest =~= o1);
        }
        if exists|k: int| 0 <= k < ls.len() && trim(ls[k]) == "[Desktop Entry]"@ {
            let k = choose|k: int| 0 <= k < ls.len() && trim(ls[k]) == "[Desktop Entry]"@;
            lemma_header_facts();
            if k > 0 {
                assert(rest[k - 1] == ls[k]);
            }
        }
    }
}

proof fn lemma_rewrite_single(x: Seq<char>, st: EntryScan, exec: Seq<char>, icon: Seq<char>)
    ensures
        rewrite_lines(seq![x], st, exec, icon).0 == rewrite_step(st, x, exec, icon).0,
{
    let e = Seq::<Seq<char>>::empty();
    let st1 = rewrite_step(st, x, exec, icon).0;
    assert(rewrite_lines(e, st1, exec, icon).0 == st1);
    assert(seq![x].drop_first() =~= e);
    assert(seq![x][0] == x);
}

proof fn lemma_header_is_group_header()
    ensures
        is_group_header("[Desktop Entry]"@),
{
    reveal_strlit("[Desktop Entry]");
    reveal_strlit("[");
    reveal_strlit("]");
    assert("[Desktop Entry]"@.subrange(0, 1) =~= "["@);
    assert("[Desktop Entry]"@.subrange(14, 15) =~= "]"@);
}

/// After the header line and only lines that open no group, the walk is
/// inside the main group.
proof fn lemma_entry_state(ls: Seq<Seq<char>>, j: int, i: int, exec: Seq<char>, icon: Seq<char>)
    requires
        0 <= j < i <= ls.len(),
        trim(ls[j]) == "[Desktop Entry]"@,
        forall|k: int| j < k < i ==> !is_group_header(trim(#[trigger] ls[k])),
    ensures
        rewrite_lines(ls.take(i), initial_scan(), exec, icon).0.in_entry,
    decreases i,
{
    let x = ls[i - 1];
    assert(ls.take(i) =~= ls.take(i - 1) + seq![x]);
    lemma_rewrite_concat(ls.take(i - 1), seq![x], initial_scan(), exec, icon);
    let st = rewrite_lines(ls.take(i - 1), initial_scan(), exec, icon).0;
    lemma_rewrite_single(x, st, exec, icon);
    if i - 1 > j {
        lemma_entry_state(ls, j, i - 1, exec, icon);
        lemma_header_is_group_header();
        assert(!is_group_header(trim(x)));
    }
}

/// The launcher line of an entry, and what the rewrite needs of it.
proof fn lemma_launcher_line(exec: Seq<char>)
    requires
        !contains("Exec="@ + exec, header_line()),
    ensures
        ("Exec="@ + exec + "\n"@).len() >= 2,
        ("Exec="@ + exec + "\n"@)[0] == 'E',
        ("Exec="@ + exec + "\n"@)[1] == 'x',
        ("Exec="@ + exec + "\n"@).last() == '\n',
        forall|m: int|
            matches_at("Exec="@ + exec + "\n"@, m, header_line()) ==> m + header_line().len() == (
            "Exec="@ + exec + "\n"@).len(),
{
    reveal_strlit("Exec=");
    reveal_strlit("\n");
    lemma_header_facts();
    let ex = "Exec="@;
    let w = ex + exec + "\n"@;
    let n = w.len() as int;
    assert forall|m: int| matches_at(w, m, header_line()) implies m + header_line().len() == w.len() by {
        if m + 16 < n {
            assert((ex + exec).subrange(m, m + 16) =~= w.subrange(m, m + 16));
            assert(matches_at(ex + exec, m, header_line()));
        }
    }
}

/// Before any key is added, the rewritten body holds the launcher line
/// where the bundled `Exec=` line was.
proof fn lemma_body_has_launcher(content: Seq<char>, exec: Seq<char>, icon: Seq<char>, j: int, i: int)
    requires
        0 <= j < i < lines(content).len(),
        trim(lines(content)[j]) == "[Desktop Entry]"@,
        forall|k: int| j < k < i ==> !is_group_header(trim(#[trigger] lines(content)[k])),
        starts_with(trim(lines(content)[i]), "Exec="@),
        !is_localized_key(trim(lines(content)[i])),
    ensures
        exists|p: int| line_at(rewrite_lines(lines(content), initial_scan(), exec, icon).1, p, "Exec="@ + exec + "\n"@),
{
    reveal_strlit("Exec=");
    reveal_strlit("[Desktop Entry]");
    reveal_strlit("[");
    let ls = lines(content);
    let w = "Exec="@ + exec + "\n"@;
    let n = w.len() as int;
    lemma_entry_state(ls, j, i, exec, icon);
    let st_i = rewrite_lines(ls.take(i), initial_scan(), exec, icon).0;
    assert(ls =~= ls.take(i) + ls.skip(i));
    lemma_rewrite_concat(ls.take(i), ls.skip(i), initial_scan(), exec, icon);
    let rest = ls.skip(i);
    assert(rest[0] == ls[i]);
    assert(rest.drop_first() =~= ls.skip(i + 1));
    let t = trim(ls[i]);
    assert(t[0] == 'E') by {
        assert(t.subrange(0, 5)[0] == t[0]);
    }
    assert(t != "[Desktop Entry]"@) by {
        assert("[Desktop Entry]"@[0] == '[');
    }
    assert(!is_group_header(t)) by {
        if starts_with(t, "["@) {
            assert(t.subrange(0, 1)[0] == t[0]);
        }
    }
    let step = rewrite_step(st_i, ls[i], exec, icon);
    assert(step.1 == w);
    let c = rewrite_lines(ls.skip(i + 1), step.0, exec, icon).1;
    let a = rewrite_lines(ls.take(i), initial_scan(), exec, icon).1;
    let body = rewrite_lines(ls, initial_scan(), exec, icon).1;
    assert(body =~= a + (w + c));
    assert(ls.take(i)[j] == ls[j]);
    lemma_rewrite_output(ls.take(i), initial_scan(), exec, icon);
    let p = a.len() as int;
    assert(body[p - 1] == a.last());
    assert(body.subrange(p, p + n) =~= w);
    assert(line_at(body, p, w));
}

/// A text that holds `w` as a whole line holds it behind a line break.
proof fn lemma_line_contained(s: Seq<char>, q: int, w: Seq<char>)
    requires
        line_at(s, q, w),
    ensures
        contains(s, seq!['\n'] + w),
{
    let nw = seq!['\n'] + w;
    assert(s.subrange(q - 1, q - 1 + nw.len()) =~= nw) by {
        assert(s.subrange(q, q + w.len()) =~= w);
    }
    assert(matches_at(s, q - 1, nw));
}

/// Law: installing an AppImage writes an entry that launches the installed
/// copy: when the bundled entry's main group has an `Exec=` line (line `i`,
/// under the `[Desktop Entry]` header at line `j`, with no other group
/// opened in between, and not itself a localised key), the written entry
/// holds the whole line `Exec=<exec>`, whatever keys are added after the
/// header. This holds as long as the launcher line does not itself hold the
/// header text, after which a key would be inserted.
#[verifier::spinoff_prover]
pub proof fn law_installed_entry_launches_the_copy(
    content: Seq<char>,
    exec: Seq<char>,
    icon: Seq<char>,
    j: int,
    i: int,
)
    requires
        0 <= j < i < lines(content).len(),
        trim(lines(content)[j]) == "[Desktop Entry]"@,
        forall|k: int| j < k < i ==> !is_group_header(trim(#[trigger] lines(content)[k])),
        starts_with(trim(lines(content)[i]), "Exec="@),
        !is_localized_key(trim(lines(content)[i])),
        !contains("Exec="@ + exec, header_line()),
    ensures
        contains(rewrite_desktop(content, exec, icon), "\n"@ + "Exec="@ + exec + "\n"@),
{
    let w = "Exec="@ + exec + "\n"@;
    lemma_launcher_line(exec);
    lemma_body_has_launcher(content, exec, icon, j, i);
    let (st, body) = rewrite_lines(lines(content), initial_scan(), exec, icon);
    let p = choose|p: int| line_at(body, p, w);
    reveal_strlit("Type=Application\n");
    reveal_strlit("Terminal=false\n");
    reveal_strlit("Categories=Utility;\n");
    let k1 = "Type=Application\n"@;
    let k2 = "Terminal=false\n"@;
    let k3 = "Categories=Utility;\n"@;
    let s1 = if st.has_type { body } else { insert_after_header(body, k1) };
    if !st.has_type {
        lemma_insert_keeps_line(body, k1, w, p);
    }
    let q1 = choose|q: int| line_at(s1, q, w);
    let s2 = if st.has_terminal { s1 } else { insert_after_header(s1, k2) };
    if !st.has_terminal {
        lemma_insert_keeps_line(s1, k2, w, q1);
    }
    let q2 = choose|q: int| line_at(s2, q, w);
    let s3 = if st.has_categories { s2 } else { insert_after_header(s2, k3) };
    if !st.has_categories {
        lemma_insert_keeps_line(s2, k3, w, q2);
    }
    let q3 = choose|q: int| line_at(s3, q, w);
    assert(s3 == rewrite_desktop(content, exec, icon));
    lemma_line_contained(s3, q3, w);
    reveal_strlit("\n");
    assert(seq!['\n'] + w =~= "\n"@ + "Exec="@ + exec + "\n"@);
}

} // verus!
