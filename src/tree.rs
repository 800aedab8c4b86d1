//! Rendering of a deterministic text tree from the walked paths.
//!
//! Paths are `/`-separated text. A path is compared and measured by its
//! components: the pieces between separators, with empty pieces and `.`
//! pieces left out.

use vstd::prelude::*;

verus! {

/// Whether a piece between separators counts as a component.
pub open spec fn kept_component(c: Seq<char>) -> bool {
    c.len() > 0 && c != seq!['.']
}

/// Reading `p` from the left: the components completed so far, and the piece
/// after the last separator.
pub open spec fn split_state(p: Seq<char>) -> (Seq<Seq<char>>, Seq<char>)
    decreases p.len(),
{
    if p.len() == 0 {
        (seq![], seq![])
    } else {
        let (done, cur) = split_state(p.drop_last());
        if p.last() == '/' {
            (if kept_component(cur) { done.push(cur) } else { done }, seq![])
        } else {
            (done, cur.push(p.last()))
        }
    }
}

/// The components of a path.
pub open spec fn path_components(p: Seq<char>) -> Seq<Seq<char>> {
    let (done, cur) = split_state(p);
    if kept_component(cur) {
        done.push(cur)
    } else {
        done
    }
}

/// Three-way comparison of two texts by code point, from position `i` on.
pub open spec fn cmp_text_from(a: Seq<char>, b: Seq<char>, i: int) -> int
    decreases a.len() - i,
{
    if i >= a.len() && i >= b.len() {
        0
    } else if i >= a.len() {
        -1
    } else if i >= b.len() {
        1
    } else if (a[i] as u32) < (b[i] as u32) {
        -1
    } else if (a[i] as u32) > (b[i] as u32) {
        1
    } else {
        cmp_text_from(a, b, i + 1)
    }
}

/// Lexicographic three-way comparison of two texts (-1, 0 or 1).
pub open spec fn cmp_text(a: Seq<char>, b: Seq<char>) -> int {
    cmp_text_from(a, b, 0)
}

/// Three-way comparison of two component sequences, from component `i` on.
pub open spec fn cmp_components_from(a: Seq<Seq<char>>, b: Seq<Seq<char>>, i: int) -> int
    decreases a.len() - i,
{
    if i >= a.len() && i >= b.len() {
        0
    } else if i >= a.len() {
        -1
    } else if i >= b.len() {
        1
    } else if cmp_text(a[i], b[i]) != 0 {
        cmp_text(a[i], b[i])
    } else {
        cmp_components_from(a, b, i + 1)
    }
}

/// Component-wise lexicographic comparison of two paths' components.
pub open spec fn cmp_components(a: Seq<Seq<char>>, b: Seq<Seq<char>>) -> int {
    cmp_components_from(a, b, 0)
}

/// Inserts `x` into `s` after every element that does not sort above it.
pub open spec fn insert_sorted(s: Seq<Seq<Seq<char>>>, x: Seq<Seq<char>>) -> Seq<Seq<Seq<char>>>
    decreases s.len(),
{
    if s.len() == 0 {
        seq![x]
    } else if cmp_components(s.last(), x) <= 0 {
        s.push(x)
    } else {
        insert_sorted(s.drop_last(), x).push(s.last())
    }
}

/// Stable sort of component sequences by [`cmp_components`].
pub open spec fn sort_components(s: Seq<Seq<Seq<char>>>) -> Seq<Seq<Seq<char>>>
    decreases s.len(),
{
    if s.len() == 0 {
        s
    } else {
        insert_sorted(sort_components(s.drop_last()), s.last())
    }
}

/// The entries whose components differ from the root's, in order.
pub open spec fn without_root(root: Seq<Seq<char>>, cs: Seq<Seq<Seq<char>>>) -> Seq<Seq<Seq<char>>>
    decreases cs.len(),
{
    if cs.len() == 0 {
        seq![]
    } else {
        let rest = without_root(root, cs.drop_last());
        if cs.last() == root {
            rest
        } else {
            rest.push(cs.last())
        }
    }
}

/// The components of `c` below `root`, or all of them when `c` is not under `root`.
pub open spec fn relative_to(root: Seq<Seq<char>>, c: Seq<Seq<char>>) -> Seq<Seq<char>> {
    if root.len() <= c.len() && c.take(root.len() as int) == root {
        c.skip(root.len() as int)
    } else {
        c
    }
}

/// The indentation unit of one enclosing level.
pub open spec fn bar() -> Seq<char> {
    seq!['│', ' ', ' ', ' ']
}

/// The branch mark in front of a name.
pub open spec fn tee() -> Seq<char> {
    seq!['├', '─', '─', ' ']
}

/// `n` indentation units.
pub open spec fn indent(n: nat) -> Seq<char>
    decreases n,
{
    if n == 0 {
        seq![]
    } else {
        indent((n - 1) as nat) + bar()
    }
}

/// The line of an entry with relative components `rel`.
pub open spec fn entry_line(rel: Seq<Seq<char>>) -> Seq<char> {
    if rel.len() == 0 {
        seq![]
    } else {
        indent((rel.len() - 1) as nat) + tee() + rel.last()
    }
}

/// The lines of the sorted entries, each preceded by a line break.
pub open spec fn render_lines(root: Seq<Seq<char>>, sorted: Seq<Seq<Seq<char>>>) -> Seq<char>
    decreases sorted.len(),
{
    if sorted.len() == 0 {
        seq![]
    } else {
        render_lines(root, sorted.drop_last()) + seq!['\n'] + entry_line(
            relative_to(root, sorted.last()),
        )
    }
}

/// The header line naming the root.
pub open spec fn tree_header(root: Seq<char>) -> Seq<char> {
    seq!['.', ' ', ' ', '#', ' '] + root
}

/// The components of each entry.
pub open spec fn all_components(entries: Seq<Seq<char>>) -> Seq<Seq<Seq<char>>> {
    entries.map_values(|e: Seq<char>| path_components(e))
}

/// The entries to draw under `root`, sorted component-wise.
pub open spec fn tree_entries(root: Seq<char>, entries: Seq<Seq<char>>) -> Seq<Seq<Seq<char>>> {
    sort_components(without_root(path_components(root), all_components(entries)))
}

/// The tree of `entries` under `root`: the header, then one line per entry
/// other than the root, in component-wise order.
pub open spec fn tree_text(root: Seq<char>, entries: Seq<Seq<char>>) -> Seq<char> {
    tree_header(root) + render_lines(path_components(root), tree_entries(root, entries))
}

/// Whether `piece` counts as a component.
fn is_kept(piece: &str) -> (r: bool)
    ensures
        r == kept_component(piece@),
{
    let len = piece.unicode_len();
    if len == 0 {
        false
    } else if len == 1 && piece.get_char(0) == '.' {
        assert(piece@ =~= seq!['.']);
        false
    } else {
        assert(len == 1 ==> piece@[0] != '.');
        true
    }
}

/// The components of `path`.
pub fn components(path: &str) -> (r: Vec<String>)
    ensures
        r.deep_view() == path_components(path@),
{
    let n = path.unicode_len();
    let mut out: Vec<String> = Vec::new();
    let mut start: usize = 0;
    let mut i: usize = 0;
    while i < n
        invariant
            n == path@.len(),
            start <= i <= n,
            split_state(path@.take(i as int)) == (out.deep_view(), path@.subrange(
                start as int,
                i as int,
            )),
        decreases n - i,
    {
        let c = path.get_char(i);
        assert(path@.take(i + 1).drop_last() =~= path@.take(i as int));
        assert(path@.take(i + 1).last() == c);
        if c == '/' {
            let piece = path.substring_char(start, i);
            if is_kept(piece) {
                let ghost before = out.deep_view();
                out.push(String::from_str(piece));
                assert(out.deep_view() =~= before.push(piece@));
            }
            start = i + 1;
            assert(path@.subrange(start as int, i + 1) =~= seq![]);
        } else {
            assert(path@.subrange(start as int, i + 1) =~= path@.subrange(
                start as int,
                i as int,
            ).push(c));
        }
        i = i + 1;
    }
    assert(path@.take(n as int) =~= path@);
    let piece = path.substring_char(start, n);
    if is_kept(piece) {
        let ghost before = out.deep_view();
        out.push(String::from_str(piece));
        assert(out.deep_view() =~= before.push(piece@));
    }
    out
}

/// Lexicographic comparison of two texts by code point.
fn compare_text(a: &String, b: &String) -> (r: i8)
    ensures
        r as int == cmp_text(a@, b@),
{
    let la = a.as_str().unicode_len();
    let lb = b.as_str().unicode_len();
    let mut i: usize = 0;
    while i < la && i < lb
        invariant
            la == a@.len(),
            lb == b@.len(),
            i <= la,
            i <= lb,
            cmp_text(a@, b@) == cmp_text_from(a@, b@, i as int),
        decreases la - i,
    {
        let ca = a.as_str().get_char(i);
        let cb = b.as_str().get_char(i);
        if (ca as u32) < (cb as u32) {
            return -1;
        }
        if (ca as u32) > (cb as u32) {
            return 1;
        }
        i = i + 1;
    }
    if i >= la && i >= lb {
        0
    } else if i >= la {
        -1
    } else {
        1
    }
}

/// Component-wise comparison of two component lists.
fn compare_components(a: &Vec<String>, b: &Vec<String>) -> (r: i8)
    ensures
        r as int == cmp_components(a.deep_view(), b.deep_view()),
{
    let mut i: usize = 0;
    while i < a.len() && i < b.len()
        invariant
            i <= a.len(),
            i <= b.len(),
            cmp_components(a.deep_view(), b.deep_view()) == cmp_components_from(
                a.deep_view(),
                b.deep_view(),
                i as int,
            ),
        decreases a.len() - i,
    {
        let c = compare_text(&a[i], &b[i]);
        if c != 0 {
            return c;
        }
        i = i + 1;
    }
    if i >= a.len() && i >= b.len() {
        0
    } else if i >= a.len() {
        -1
    } else {
        1
    }
}

/// Whether two component lists are equal.
fn same_components(a: &Vec<String>, b: &Vec<String>) -> (r: bool)
    ensures
        r == (a.deep_view() == b.deep_view()),
{
    if a.len() != b.len() {
        assert(a.deep_view().len() != b.deep_view().len());
        return false;
    }
    let mut i: usize = 0;
    while i < a.len()
        invariant
            a.len() == b.len(),
            i <= a.len(),
            forall|k: int| 0 <= k < i ==> a.deep_view()[k] == b.deep_view()[k],
        decreases a.len() - i,
    {
        if a[i] != b[i] {
            assert(a.deep_view()[i as int] != b.deep_view()[i as int]);
            return false;
        }
        i = i + 1;
    }
    assert(a.deep_view() =~= b.deep_view());
    true
}

/// Inserting at the place a backward scan finds is [`insert_sorted`].
proof fn lemma_insert_at(s: Seq<Seq<Seq<char>>>, x: Seq<Seq<char>>, j: int)
    requires
        0 <= j <= s.len(),
        j == 0 || cmp_components(s[j - 1], x) <= 0,
        forall|k: int| j <= k < s.len() ==> cmp_components(#[trigger] s[k], x) > 0,
    ensures
        insert_sorted(s, x) == s.insert(j, x),
    decreases s.len(),
{
    if s.len() == 0 {
        assert(s.insert(j, x) =~= seq![x]);
    } else if j == s.len() {
        assert(s.insert(j, x) =~= s.push(x));
    } else {
        let t = s.drop_last();
        assert(cmp_components(s[s.len() - 1], x) > 0);
        assert forall|k: int| j <= k < t.len() implies cmp_components(#[trigger] t[k], x) > 0 by {
            assert(t[k] == s[k]);
        }
        lemma_insert_at(t, x, j);
        assert(s.insert(j, x) =~= t.insert(j, x).push(s.last()));
    }
}

/// Sorts component lists component-wise, keeping the order of equal ones.
fn sort_by_components(keys: Vec<Vec<String>>) -> (r: Vec<Vec<String>>)
    ensures
        r.deep_view() == sort_components(keys.deep_view()),
{
    let ghost all = keys.deep_view();
    let mut rest = keys;
    let mut out: Vec<Vec<String>> = Vec::new();
    let mut i: usize = 0;
    let n = rest.len();
    while i < n
        invariant
            n == all.len(),
            i <= n,
            rest.deep_view() == all.skip(i as int),
            out.deep_view() == sort_components(all.take(i as int)),
        decreases n - i,
    {
        assert(rest.deep_view().len() == n - i);
        let ghost old_rest = rest@;
        let x = rest.remove(0);
        assert(x == old_rest[0]);
        assert(all.skip(i as int)[0] == old_rest[0].deep_view());
        assert(all.take(i + 1).drop_last() =~= all.take(i as int));
        assert(x.deep_view() == all[i as int]);
        assert forall|k: int| 0 <= k < rest.deep_view().len() implies rest.deep_view()[k]
            == all.skip(i + 1)[k] by {
            assert(rest@[k] == old_rest[k + 1]);
            assert(all.skip(i as int)[k + 1] == old_rest[k + 1].deep_view());
        }
        assert(rest.deep_view() =~= all.skip(i + 1));
        let mut j = out.len();
        loop
            invariant
                j <= out.len(),
                forall|k: int|
                    j <= k < out.len() ==> cmp_components(
                        #[trigger] out.deep_view()[k],
                        x.deep_view(),
                    ) > 0,
            ensures
                j <= out.len(),
                j == 0 || cmp_components(out.deep_view()[j - 1], x.deep_view()) <= 0,
                forall|k: int|
                    j <= k < out.len() ==> cmp_components(
                        #[trigger] out.deep_view()[k],
                        x.deep_view(),
                    ) > 0,
            decreases j,
        {
            if j == 0 {
                break;
            }
            if compare_components(&out[j - 1], &x) <= 0 {
                break;
            }
            j = j - 1;
        }
        proof {
            lemma_insert_at(out.deep_view(), x.deep_view(), j as int);
        }
        let ghost before = out.deep_view();
        let ghost xv = x.deep_view();
        out.insert(j, x);
        assert(out.deep_view() =~= before.insert(j as int, xv));
        i = i + 1;
    }
    assert(all.take(n as int) =~= all);
    out
}

/// The line of the entry with components `c`, under the root with components `root_c`.
fn line_of_entry(root_c: &Vec<String>, c: &Vec<String>) -> (r: String)
    ensures
        r@ == entry_line(relative_to(root_c.deep_view(), c.deep_view())),
{
    let ghost rv = root_c.deep_view();
    let ghost cv = c.deep_view();
    let rl = root_c.len();
    let mut under = rl <= c.len();
    let mut k: usize = 0;
    while under && k < rl
        invariant
            k <= rl,
            rl == rv.len(),
            cv == c.deep_view(),
            rv == root_c.deep_view(),
            under ==> rl <= c.len(),
            under ==> forall|m: int| 0 <= m < k ==> cv[m] == rv[m],
            !under ==> !(rv.len() <= cv.len() && cv.take(rl as int) == rv),
        decreases rl - k + (if under { 1int } else { 0int }),
    {
        if c[k] != root_c[k] {
            assert(cv.take(rl as int)[k as int] != rv[k as int]);
            under = false;
        } else {
            k = k + 1;
        }
    }
    if under {
        assert(cv.take(rl as int) =~= rv);
    }
    let ghost rel = relative_to(rv, cv);
    let depth = if under {
        c.len() - rl
    } else {
        c.len()
    };
    assert(rel.len() == depth);
    let mut line = String::new();
    if depth == 0 {
        assert(line@ =~= entry_line(rel));
        return line;
    }
    proof {
        reveal_strlit("│   ");
        reveal_strlit("├── ");
        assert("│   "@ =~= bar());
        assert("├── "@ =~= tee());
    }
    let mut d: usize = 0;
    while d < depth - 1
        invariant
            d <= depth - 1,
            line@ == indent(d as nat),
            "│   "@ == bar(),
        decreases depth - 1 - d,
    {
        line.append("│   ");
        d = d + 1;
    }
    line.append("├── ");
    assert(rel.last() == cv.last());
    line.append(c[c.len() - 1].as_str());
    line
}

/// Renders the tree of `entries` under `root`: a header line naming the root,
/// then one line per entry other than the root, sorted by components and
/// indented by depth below the root.
pub fn build_tree_from_entries(root: &str, entries: &[String]) -> (r: String)
    ensures
        r@ == tree_text(root@, entries@.map_values(|e: String| e@)),
{
    let ghost ev = entries@.map_values(|e: String| e@);
    let root_c = components(root);
    let ghost rv = root_c.deep_view();
    let mut keys: Vec<Vec<String>> = Vec::new();
    let mut i: usize = 0;
    while i < entries.len()
        invariant
            i <= entries.len(),
            ev == entries@.map_values(|e: String| e@),
            rv == root_c.deep_view(),
            keys.deep_view() == without_root(rv, all_components(ev.take(i as int))),
        decreases entries.len() - i,
    {
        let c = components(entries[i].as_str());
        assert(all_components(ev.take(i + 1)).drop_last() =~= all_components(ev.take(i as int)));
        assert(all_components(ev.take(i + 1)).last() == c.deep_view());
        if !same_components(&c, &root_c) {
            let ghost before = keys.deep_view();
            let ghost cv = c.deep_view();
            keys.push(c);
            assert(keys.deep_view() =~= before.push(cv));
        }
        i = i + 1;
    }
    assert(ev.take(entries.len() as int) =~= ev);
    let sorted = sort_by_components(keys);
    let ghost sv = sorted.deep_view();
    assert(sv == tree_entries(root@, ev));
    let mut text = String::from_str(".  # ");
    proof {
        reveal_strlit(".  # ");
        reveal_strlit("\n");
        assert(".  # "@ =~= seq!['.', ' ', ' ', '#', ' ']);
        assert("\n"@ =~= seq!['\n']);
    }
    text.append(root);
    assert(sv.take(0) =~= seq![]);
    let mut i: usize = 0;
    while i < sorted.len()
        invariant
            i <= sorted.len(),
            sv == sorted.deep_view(),
            rv == root_c.deep_view(),
            "\n"@ == seq!['\n'],
            text@ == tree_header(root@) + render_lines(rv, sv.take(i as int)),
        decreases sorted.len() - i,
    {
        assert(sv.take(i + 1).drop_last() =~= sv.take(i as int));
        text.append("\n");
        let line = line_of_entry(&root_c, &sorted[i]);
        text.append(line.as_str());
        assert(text@ =~= tree_header(root@) + render_lines(rv, sv.take(i + 1)));
        i = i + 1;
    }
    assert(sv.take(sorted.len() as int) =~= sv);
    text
}

/// Whether `s` holds no line break.
pub open spec fn no_newline(s: Seq<char>) -> bool {
    forall|i: int| 0 <= i < s.len() ==> s[i] != '\n'
}

/// Whether every line break of `t` is followed by a branch or indentation mark.
pub open spec fn breaks_marked(t: Seq<char>) -> bool {
    forall|p: int|
        0 <= p < t.len() && #[trigger] t[p] == '\n' ==> p + 1 < t.len() && (t[p + 1] == '├' || t[p
            + 1] == '│')
}

/// An entry that gets a line of its own: not the root, with at least one
/// component, and no line break in its name (its last component).
pub open spec fn drawable(root: Seq<Seq<char>>, c: Seq<Seq<char>>) -> bool {
    &&& c != root
    &&& c.len() > 0
    &&& no_newline(c.last())
}

/// The lines under the header, one per drawn entry, in order.
pub open spec fn tree_lines(root: Seq<char>, entries: Seq<Seq<char>>) -> Seq<Seq<char>> {
    let rc = path_components(root);
    tree_entries(root, entries).map_values(|c: Seq<Seq<char>>| entry_line(relative_to(rc, c)))
}

/// Lines, each preceded by a line break.
pub open spec fn joined_lines(lines: Seq<Seq<char>>) -> Seq<char>
    decreases lines.len(),
{
    if lines.len() == 0 {
        seq![]
    } else {
        joined_lines(lines.drop_last()) + seq!['\n'] + lines.last()
    }
}

proof fn lemma_render_joined(root: Seq<Seq<char>>, sorted: Seq<Seq<Seq<char>>>)
    ensures
        render_lines(root, sorted) == joined_lines(
            sorted.map_values(|c: Seq<Seq<char>>| entry_line(relative_to(root, c))),
        ),
    decreases sorted.len(),
{
    if sorted.len() > 0 {
        lemma_render_joined(root, sorted.drop_last());
        let f = |c: Seq<Seq<char>>| entry_line(relative_to(root, c));
        assert(sorted.map_values(f).drop_last() =~= sorted.drop_last().map_values(f));
    }
}

proof fn lemma_insert_len(s: Seq<Seq<Seq<char>>>, x: Seq<Seq<char>>)
    ensures
        insert_sorted(s, x).len() == s.len() + 1,
    decreases s.len(),
{
    if s.len() > 0 {
        lemma_insert_len(s.drop_last(), x);
    }
}

proof fn lemma_sort_len(s: Seq<Seq<Seq<char>>>)
    ensures
        sort_components(s).len() == s.len(),
    decreases s.len(),
{
    if s.len() > 0 {
        lemma_sort_len(s.drop_last());
        lemma_insert_len(sort_components(s.drop_last()), s.last());
    }
}

proof fn lemma_without_root_drawable(root: Seq<Seq<char>>, cs: Seq<Seq<Seq<char>>>)
    requires
        forall|k: int| 0 <= k < cs.len() ==> (#[trigger] cs[k] == root || cs[k].len() > 0),
        forall|k: int| 0 <= k < cs.len() && cs[k].len() > 0 ==> no_newline(#[trigger] cs[k].last()),
    ensures
        forall|k: int|
            0 <= k < without_root(root, cs).len() ==> drawable(root, #[trigger] without_root(root, cs)[k]),
    decreases cs.len(),
{
    if cs.len() > 0 {
        let init = cs.drop_last();
        assert forall|k: int| 0 <= k < init.len() implies (#[trigger] init[k] == root || init[k].len() > 0) by {
            assert(init[k] == cs[k]);
        }
        assert forall|k: int| 0 <= k < init.len() && init[k].len() > 0 implies no_newline(
            #[trigger] init[k].last(),
        ) by {
            assert(init[k] == cs[k]);
        }
        lemma_without_root_drawable(root, init);
        let rest = without_root(root, init);
        let last = cs[cs.len() - 1];
        if last != root {
            assert(last.len() > 0);
            assert(no_newline(cs[cs.len() - 1].last()));
            assert forall|k: int| 0 <= k < rest.push(last).len() implies drawable(
                root,
                #[trigger] rest.push(last)[k],
            ) by {
                if k < rest.len() {
                    assert(rest.push(last)[k] == rest[k]);
                }
            }
        }
    }
}

proof fn lemma_insert_drawable(root: Seq<Seq<char>>, s: Seq<Seq<Seq<char>>>, x: Seq<Seq<char>>)
    requires
        forall|k: int| 0 <= k < s.len() ==> drawable(root, #[trigger] s[k]),
        drawable(root, x),
    ensures
        forall|k: int|
            0 <= k < insert_sorted(s, x).len() ==> drawable(root, #[trigger] insert_sorted(s, x)[k]),
    decreases s.len(),
{
    if s.len() == 0 {
        assert(insert_sorted(s, x) == seq![x]);
    } else if cmp_components(s.last(), x) <= 0 {
        assert forall|k: int| 0 <= k < s.push(x).len() implies drawable(root, #[trigger] s.push(x)[k]) by {
            if k < s.len() {
                assert(s.push(x)[k] == s[k]);
            }
        }
    } else {
        let init = s.drop_last();
        assert forall|k: int| 0 <= k < init.len() implies drawable(root, #[trigger] init[k]) by {
            assert(init[k] == s[k]);
        }
        lemma_insert_drawable(root, init, x);
        let t = insert_sorted(init, x);
        assert(drawable(root, s[s.len() - 1]));
        assert forall|k: int| 0 <= k < t.push(s.last()).len() implies drawable(
            root,
            #[trigger] t.push(s.last())[k],
        ) by {
            if k < t.len() {
                assert(t.push(s.last())[k] == t[k]);
            }
        }
    }
}

proof fn lemma_sort_drawable(root: Seq<Seq<char>>, s: Seq<Seq<Seq<char>>>)
    requires
        forall|k: int| 0 <= k < s.len() ==> drawable(root, #[trigger] s[k]),
    ensures
        forall|k: int|
            0 <= k < sort_components(s).len() ==> drawable(root, #[trigger] sort_components(s)[k]),
    decreases s.len(),
{
    if s.len() > 0 {
        let init = s.drop_last();
        assert forall|k: int| 0 <= k < init.len() implies drawable(root, #[trigger] init[k]) by {
            assert(init[k] == s[k]);
        }
        lemma_sort_drawable(root, init);
        assert(drawable(root, s[s.len() - 1]));
        lemma_insert_drawable(root, sort_components(init), s.last());
    }
}

proof fn lemma_indent(n: nat)
    ensures
        no_newline(indent(n)),
        n > 0 ==> indent(n).len() > 0 && indent(n)[0] == '│',
    decreases n,
{
    if n > 0 {
        let m = (n - 1) as nat;
        lemma_indent(m);
        let t = indent(m) + bar();
        assert forall|i: int| 0 <= i < t.len() implies t[i] != '\n' by {
            if i < indent(m).len() {
                assert(t[i] == indent(m)[i]);
            } else {
                assert(t[i] == bar()[i - indent(m).len()]);
            }
        }
        if m == 0 {
            assert(indent(m) =~= seq![]);
            assert(t[0] == bar()[0]);
        } else {
            assert(t[0] == indent(m)[0]);
        }
    }
}

proof fn lemma_line_of_drawable(root: Seq<Seq<char>>, c: Seq<Seq<char>>)
    requires
        drawable(root, c),
    ensures
        entry_line(relative_to(root, c)).len() > 0,
        no_newline(entry_line(relative_to(root, c))),
        entry_line(relative_to(root, c))[0] == '├' || entry_line(relative_to(root, c))[0] == '│',
{
    let rel = relative_to(root, c);
    if root.len() <= c.len() && c.take(root.len() as int) == root {
        if c.len() == root.len() {
            assert(c =~= c.take(root.len() as int));
        }
        assert(rel.last() == c.last());
    }
    assert(rel.len() > 0);
    assert(rel.last() == c[c.len() - 1]);
    let n = (rel.len() - 1) as nat;
    lemma_indent(n);
    let line = indent(n) + tee() + rel.last();
    assert(no_newline(rel.last()));
    assert forall|i: int| 0 <= i < line.len() implies line[i] != '\n' by {
        let a = indent(n).len() as int;
        if i < a {
            assert(line[i] == indent(n)[i]);
        } else if i < a + 4 {
            assert(line[i] == tee()[i - a]);
        } else {
            assert(line[i] == rel.last()[i - a - 4]);
        }
    }
    if n == 0 {
        assert(indent(n) =~= seq![]);
        assert(line[0] == tee()[0]);
    } else {
        assert(line[0] == indent(n)[0]);
    }
}

proof fn lemma_render_marked(root: Seq<Seq<char>>, sorted: Seq<Seq<Seq<char>>>)
    requires
        forall|k: int| 0 <= k < sorted.len() ==> drawable(root, #[trigger] sorted[k]),
    ensures
        breaks_marked(render_lines(root, sorted)),
        render_lines(root, sorted).len() == 0 || render_lines(root, sorted)[0] == '\n',
    decreases sorted.len(),
{
    if sorted.len() > 0 {
        let init = sorted.drop_last();
        assert forall|k: int| 0 <= k < init.len() implies drawable(root, #[trigger] init[k]) by {
            assert(init[k] == sorted[k]);
        }
        lemma_render_marked(root, init);
        let a = render_lines(root, init);
        assert(drawable(root, sorted[sorted.len() - 1]));
        lemma_line_of_drawable(root, sorted.last());
        let line = entry_line(relative_to(root, sorted.last()));
        let t = a + seq!['\n'] + line;
        assert(t == render_lines(root, sorted));
        assert forall|p: int| 0 <= p < t.len() && #[trigger] t[p] == '\n' implies p + 1 < t.len() && (t[p
            + 1] == '├' || t[p + 1] == '│') by {
            if p < a.len() {
                assert(t[p] == a[p]);
                assert(t[p + 1] == a[p + 1]);
            } else if p == a.len() {
                assert(t[p + 1] == line[0]);
            } else {
                assert(t[p] == line[p - a.len() - 1]);
            }
        }
        if a.len() > 0 {
            assert(t[0] == a[0]);
        }
    }
}

/// The tree has exactly one header line, and it names the root: the text
/// is the header, which holds no line break and starts with `.`, followed
/// by one line per entry other than the root, each after a line break, each
/// free of line breaks and starting with a branch or indentation mark. This
/// holds when neither the root nor any entry's name holds a line break, and
/// every entry other than the root has a name.
pub proof fn law_single_header(root: Seq<char>, entries: Seq<Seq<char>>)
    requires
        no_newline(root),
        forall|k: int|
            0 <= k < entries.len() && path_components(#[trigger] entries[k]).len() > 0 ==> no_newline(
                path_components(entries[k]).last(),
            ),
        forall|k: int|
            0 <= k < entries.len() ==> path_components(#[trigger] entries[k]) == path_components(root)
                || path_components(entries[k]).len() > 0,
    ensures
        tree_text(root, entries) == tree_header(root) + joined_lines(tree_lines(root, entries)),
        no_newline(tree_header(root)),
        tree_header(root)[0] == '.',
        tree_lines(root, entries).len() == without_root(
            path_components(root),
            all_components(entries),
        ).len(),
        forall|k: int|
            0 <= k < tree_lines(root, entries).len() ==> (#[trigger] tree_lines(root, entries)[k]).len()
                > 0 && no_newline(tree_lines(root, entries)[k]) && (tree_lines(root, entries)[k][0]
                == '├' || tree_lines(root, entries)[k][0] == '│'),
        tree_text(root, entries).take(tree_header(root).len() as int) == tree_header(root),
        forall|p: int|
            0 <= p < tree_text(root, entries).len() && #[trigger] tree_text(root, entries)[p] == '\n'
                ==> p >= tree_header(root).len() && p + 1 < tree_text(root, entries).len() && (
            tree_text(root, entries)[p + 1] == '├' || tree_text(root, entries)[p + 1] == '│'),
{
    let rc = path_components(root);
    let cs = all_components(entries);
    assert forall|k: int| 0 <= k < cs.len() implies (#[trigger] cs[k] == rc || cs[k].len() > 0) by {
        assert(cs[k] == path_components(entries[k]));
    }
    assert forall|k: int| 0 <= k < cs.len() && cs[k].len() > 0 implies no_newline(
        #[trigger] cs[k].last(),
    ) by {
        assert(cs[k] == path_components(entries[k]));
    }
    lemma_without_root_drawable(rc, cs);
    lemma_sort_drawable(rc, without_root(rc, cs));
    lemma_sort_len(without_root(rc, cs));
    let sorted = tree_entries(root, entries);
    lemma_render_marked(rc, sorted);
    lemma_render_joined(rc, sorted);
    let lines = tree_lines(root, entries);
    assert forall|k: int| 0 <= k < lines.len() implies (#[trigger] lines[k]).len() > 0 && no_newline(
        lines[k],
    ) && (lines[k][0] == '├' || lines[k][0] == '│') by {
        assert(drawable(rc, sorted[k]));
        lemma_line_of_drawable(rc, sorted[k]);
    }
    let h = tree_header(root);
    let body = render_lines(rc, sorted);
    let t = h + body;
    assert(t == tree_text(root, entries));
    assert forall|i: int| 0 <= i < h.len() implies h[i] != '\n' by {
        if i >= 5 {
            assert(h[i] == root[i - 5]);
        }
    }
    assert(t.take(h.len() as int) =~= h);
    assert(t[0] == h[0]);
    assert forall|p: int| 0 <= p < t.len() && #[trigger] t[p] == '\n' implies p >= h.len() && p + 1
        < t.len() && (t[p + 1] == '├' || t[p + 1] == '│') by {
        if p < h.len() {
            assert(t[p] == h[p]);
        } else {
            assert(t[p] == body[p - h.len()]);
            assert(t[p + 1] == body[p + 1 - h.len()]);
        }
    }
}

} // verus!
