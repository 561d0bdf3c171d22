//! Paths as `/`-separated strings: lexical normalization, joining, parents and
//! file extensions.
use vstd::prelude::*;

verus! {

/// Index just past the last occurrence of `c` in `s`, or 0 when `c` does not occur.
pub open spec fn after_last(s: Seq<char>, c: char) -> int
    decreases s.len(),
{
    if s.len() == 0 {
        0
    } else if s.last() == c {
        s.len() as int
    } else {
        after_last(s.drop_last(), c)
    }
}

/// The pieces of `s` between occurrences of `c`, empty pieces included.
pub open spec fn split_on(s: Seq<char>, c: char) -> Seq<Seq<char>>
    decreases s.len(),
{
    if s.len() == 0 {
        seq![Seq::empty()]
    } else {
        let pre = split_on(s.drop_last(), c);
        if s.last() == c {
            pre.push(Seq::empty())
        } else {
            pre.update(pre.len() - 1, pre.last().push(s.last()))
        }
    }
}

/// Adds one path component to a stack of components, resolving `.` and `..`
/// lexically. In a rooted path `..` at the top level stays at the root.
pub open spec fn push_component(stack: Seq<Seq<char>>, seg: Seq<char>, rooted: bool) -> Seq<
    Seq<char>,
> {
    if seg.len() == 0 || seg == seq!['.'] {
        stack
    } else if seg == seq!['.', '.'] {
        if stack.len() == 0 {
            if rooted {
                stack
            } else {
                stack.push(seg)
            }
        } else if stack.last() == seq!['.', '.'] {
            stack.push(seg)
        } else {
            stack.drop_last()
        }
    } else {
        stack.push(seg)
    }
}

/// The component stack left after pushing each of `segs` in turn.
pub open spec fn fold_components(segs: Seq<Seq<char>>, rooted: bool) -> Seq<Seq<char>>
    decreases segs.len(),
{
    if segs.len() == 0 {
        Seq::empty()
    } else {
        push_component(fold_components(segs.drop_last(), rooted), segs.last(), rooted)
    }
}

/// The components written one after another, separated by `/`.
pub open spec fn join_segs(segs: Seq<Seq<char>>) -> Seq<char>
    decreases segs.len(),
{
    if segs.len() == 0 {
        Seq::empty()
    } else if segs.len() == 1 {
        segs[0]
    } else {
        join_segs(segs.drop_last()) + seq!['/'] + segs.last()
    }
}

pub open spec fn is_rooted(p: Seq<char>) -> bool {
    p.len() > 0 && p[0] == '/'
}

/// The lexical normal form of a path: `.` components dropped, each `..` cancels
/// the component before it, a `..` that has nothing to cancel is kept (or
/// dropped at the root), and an empty result is `.`.
pub open spec fn normalized(p: Seq<char>) -> Seq<char> {
    let rooted = is_rooted(p);
    let st = fold_components(split_on(p, '/'), rooted);
    if st.len() == 0 {
        if rooted {
            seq!['/']
        } else {
            seq!['.']
        }
    } else if rooted {
        seq!['/'] + join_segs(st)
    } else {
        join_segs(st)
    }
}

/// `p` followed by `q`: `q` itself when it is rooted or `p` is empty, and a `/`
/// between the two unless `p` already ends with one.
pub open spec fn joined(p: Seq<char>, q: Seq<char>) -> Seq<char> {
    if is_rooted(q) || p.len() == 0 {
        q
    } else if p.last() == '/' {
        p + q
    } else {
        p + seq!['/'] + q
    }
}

/// The last component of `p`: what follows its last `/`.
pub open spec fn file_name(p: Seq<char>) -> Seq<char> {
    p.subrange(after_last(p, '/'), p.len() as int)
}

/// Whether the last component of `p` names a file (it is not empty, `.` or `..`).
pub open spec fn has_file_name(p: Seq<char>) -> bool {
    let name = file_name(p);
    name.len() != 0 && name != seq!['.'] && name != seq!['.', '.']
}

/// The file name without its extension: up to its last `.`, unless that `.`
/// starts the name.
pub open spec fn file_stem(name: Seq<char>) -> Seq<char> {
    let d = after_last(name, '.');
    if d > 1 {
        name.take(d - 1)
    } else {
        name
    }
}

/// `p` with the extension of its file name replaced by `ext` (removed when
/// `ext` is empty); `p` unchanged when it names no file.
pub open spec fn with_extension(p: Seq<char>, ext: Seq<char>) -> Seq<char> {
    if has_file_name(p) {
        let dot_ext = if ext.len() == 0 {
            Seq::empty()
        } else {
            seq!['.'] + ext
        };
        p.take(after_last(p, '/')) + file_stem(file_name(p)) + dot_ext
    } else {
        p
    }
}

/// The directory that holds `p`: `None` for the root and the empty path.
pub open spec fn parent_of(p: Seq<char>) -> Option<Seq<char>> {
    let k = after_last(p, '/');
    if p.len() == 0 || p == seq!['/'] {
        None
    } else if k == 0 {
        Some(Seq::empty())
    } else if k == 1 {
        Some(seq!['/'])
    } else {
        Some(p.take(k - 1))
    }
}

pub open spec fn views(v: Seq<String>) -> Seq<Seq<char>> {
    v.map_values(|s: String| s@)
}

proof fn lemma_after_last_bounds(s: Seq<char>, c: char)
    ensures
        0 <= after_last(s, c) <= s.len(),
        after_last(s, c) > 0 ==> s[after_last(s, c) - 1] == c,
    decreases s.len(),
{
    if s.len() > 0 && s.last() != c {
        lemma_after_last_bounds(s.drop_last(), c);
    }
}

proof fn lemma_split_nonempty(s: Seq<char>, c: char)
    ensures
        split_on(s, c).len() >= 1,
    decreases s.len(),
{
    if s.len() > 0 {
        lemma_split_nonempty(s.drop_last(), c);
    }
}

fn last_pos(s: &str, c: char) -> (r: usize)
    ensures
        r as int == after_last(s@, c),
{
    let n = s.unicode_len();
    let mut i: usize = n;
    assert(s@.take(n as int) =~= s@);
    while i > 0
        invariant
            i <= n == s@.len(),
            after_last(s@, c) == after_last(s@.take(i as int), c),
        decreases i,
    {
        if s.get_char(i - 1) == c {
            assert(s@.take(i as int).last() == c);
            return i;
        }
        assert(s@.take(i as int).drop_last() =~= s@.take(i - 1));
        i = i - 1;
    }
    0
}

fn is_lit(s: &str, lit: &str) -> (r: bool)
    ensures
        r == (s@ == lit@),
{
    let n = s.unicode_len();
    if n != lit.unicode_len() {
        return false;
    }
    let mut i: usize = 0;
    while i < n
        invariant
            n == s@.len() == lit@.len(),
            i <= n,
            s@.take(i as int) == lit@.take(i as int),
        decreases n - i,
    {
        if s.get_char(i) != lit.get_char(i) {
            return false;
        }
        assert(s@.take(i + 1) =~= s@.take(i as int).push(s@[i as int]));
        assert(lit@.take(i + 1) =~= lit@.take(i as int).push(lit@[i as int]));
        i = i + 1;
    }
    assert(s@ =~= s@.take(n as int));
    assert(lit@ =~= lit@.take(n as int));
    true
}

fn push_seg(stack: &mut Vec<String>, seg: String, rooted: bool)
    ensures
        views(final(stack)@) == push_component(views(old(stack)@), seg@, rooted),
{
    let ghost before = views(stack@);
    proof {
        reveal_strlit(".");
        reveal_strlit("..");
        assert("."@ =~= seq!['.']);
        assert(".."@ =~= seq!['.', '.']);
    }
    if seg.unicode_len() == 0 || is_lit(seg.as_str(), ".") {
        return;
    }
    if is_lit(seg.as_str(), "..") {
        if stack.len() == 0 {
            if !rooted {
                stack.push(seg);
                assert(views(stack@) =~= before.push(seg@));
            }
        } else if is_lit(stack[stack.len() - 1].as_str(), "..") {
            stack.push(seg);
            assert(views(stack@) =~= before.push(seg@));
        } else {
            stack.pop();
            assert(views(stack@) =~= before.drop_last());
        }
    } else {
        stack.push(seg);
        assert(views(stack@) =~= before.push(seg@));
    }
}

/// Writes the components separated by `/` after `prefix`.
fn join_all(prefix: &str, stack: &Vec<String>) -> (r: String)
    ensures
        r@ == prefix@ + join_segs(views(stack@)),
{
    let mut r = String::from_str(prefix);
    let mut k: usize = 0;
    while k < stack.len()
        invariant
            k <= stack@.len(),
            r@ == prefix@ + join_segs(views(stack@).take(k as int)),
        decreases stack@.len() - k,
    {
        let ghost vs = views(stack@);
        assert(vs.take(k + 1).drop_last() =~= vs.take(k as int));
        if k > 0 {
            r.append("/");
            proof {
                reveal_strlit("/");
            }
        } else {
            assert(vs.take(1)[0] == vs[0]);
        }
        r.append(stack[k].as_str());
        assert(r@ =~= prefix@ + join_segs(vs.take(k + 1)));
        k = k + 1;
    }
    assert(views(stack@).take(stack@.len() as int) =~= views(stack@));
    r
}

/// The lexical normal form of `p` (see `normalized`).
pub fn normalize(p: &str) -> (r: String)
    ensures
        r@ == normalized(p@),
{
    let n = p.unicode_len();
    let rooted = n > 0 && p.get_char(0) == '/';
    let mut stack: Vec<String> = Vec::new();
    let mut start: usize = 0;
    let mut i: usize = 0;
    proof {
        assert(p@.take(0) =~= Seq::<char>::empty());
        assert(p@.subrange(0, 0) =~= Seq::<char>::empty());
        assert(split_on(p@.take(0), '/').drop_last() =~= Seq::<Seq<char>>::empty());
        assert(views(stack@) =~= Seq::<Seq<char>>::empty());
    }
    while i < n
        invariant
            n == p@.len(),
            start <= i <= n,
            rooted == is_rooted(p@),
            split_on(p@.take(i as int), '/').last() == p@.subrange(start as int, i as int),
            views(stack@) == fold_components(split_on(p@.take(i as int), '/').drop_last(), rooted),
        decreases n - i,
    {
        let ghost pre = split_on(p@.take(i as int), '/');
        proof {
            lemma_split_nonempty(p@.take(i as int), '/');
            assert(p@.take(i + 1).drop_last() =~= p@.take(i as int));
        }
        if p.get_char(i) == '/' {
            let seg = String::from_str(p.substring_char(start, i));
            push_seg(&mut stack, seg, rooted);
            proof {
                let post = split_on(p@.take(i + 1), '/');
                assert(post =~= pre.push(Seq::empty()));
                assert(post.drop_last() =~= pre);
                assert(pre =~= pre.drop_last().push(pre.last()));
                assert(p@.subrange(i + 1, i + 1) =~= Seq::<char>::empty());
            }
            start = i + 1;
        } else {
            proof {
                let post = split_on(p@.take(i + 1), '/');
                assert(post.drop_last() =~= pre.drop_last());
                assert(p@.subrange(start as int, i + 1) =~= p@.subrange(start as int, i as int).push(
                    p@[i as int],
                ));
            }
        }
        i = i + 1;
    }
    let last = String::from_str(p.substring_char(start, n));
    push_seg(&mut stack, last, rooted);
    proof {
        let all = split_on(p@, '/');
        assert(p@.take(n as int) =~= p@);
        lemma_split_nonempty(p@, '/');
        assert(all =~= all.drop_last().push(all.last()));
        assert(views(stack@) == fold_components(all, rooted));
        reveal_strlit("/");
        reveal_strlit(".");
        reveal_strlit("");
    }
    if stack.len() == 0 {
        if rooted {
            String::from_str("/")
        } else {
            String::from_str(".")
        }
    } else if rooted {
        join_all("/", &stack)
    } else {
        join_all("", &stack)
    }
}

/// `p` followed by `q` (see `joined`).
pub fn join(p: &str, q: &str) -> (r: String)
    ensures
        r@ == joined(p@, q@),
{
    let np = p.unicode_len();
    let nq = q.unicode_len();
    if (nq > 0 && q.get_char(0) == '/') || np == 0 {
        return String::from_str(q);
    }
    let mut r = String::from_str(p);
    if p.get_char(np - 1) != '/' {
        r.append("/");
        proof {
            reveal_strlit("/");
        }
    }
    r.append(q);
    r
}

/// `p` with its file extension replaced by `ext` (see `with_extension`).
pub fn set_extension(p: &str, ext: &str) -> (r: String)
    ensures
        r@ == with_extension(p@, ext@),
{
    let n = p.unicode_len();
    let k = last_pos(p, '/');
    proof {
        lemma_after_last_bounds(p@, '/');
        reveal_strlit(".");
        reveal_strlit("..");
        assert("."@ =~= seq!['.']);
        assert(".."@ =~= seq!['.', '.']);
    }
    let name = p.substring_char(k, n);
    if k == n || is_lit(name, ".") || is_lit(name, "..") {
        return String::from_str(p);
    }
    let d = last_pos(name, '.');
    proof {
        lemma_after_last_bounds(name@, '.');
    }
    let stem_end: usize = if d > 1 {
        d - 1
    } else {
        n - k
    };
    let mut r = String::from_str(p.substring_char(0, k));
    r.append(name.substring_char(0, stem_end));
    if ext.unicode_len() > 0 {
        r.append(".");
        r.append(ext);
    }
    proof {
        assert(name@.take(n - k) =~= name@);
        assert(p@.take(k as int) =~= p@.subrange(0, k as int));
    }
    r
}

/// The directory that holds `p` (see `parent_of`).
pub fn parent(p: &str) -> (r: Option<String>)
    ensures
        r matches Some(d) ==> parent_of(p@) == Some(d@),
        r is None ==> parent_of(p@) is None,
{
    let n = p.unicode_len();
    proof {
        reveal_strlit("/");
        reveal_strlit("");
        assert("/"@ =~= seq!['/']);
        lemma_after_last_bounds(p@, '/');
    }
    if n == 0 || is_lit(p, "/") {
        return None;
    }
    let k = last_pos(p, '/');
    if k == 0 {
        Some(String::new())
    } else if k == 1 {
        Some(String::from_str("/"))
    } else {
        Some(String::from_str(p.substring_char(0, k - 1)))
    }
}

/// `p` without its leading `../` parts (a lone `..` becomes empty).
pub open spec fn strip_parents(p: Seq<char>) -> Seq<char>
    decreases p.len(),
{
    if p.len() >= 3 && p[0] == '.' && p[1] == '.' && p[2] == '/' {
        strip_parents(p.skip(3))
    } else if p == seq!['.', '.'] {
        Seq::empty()
    } else {
        p
    }
}

/// The part of a path that can be placed under another directory: the root
/// and any leading `..` parts dropped.
pub open spec fn relative_part(p: Seq<char>) -> Seq<char> {
    if is_rooted(p) {
        strip_parents(p.skip(1))
    } else {
        strip_parents(p)
    }
}

/// The part of `p` that can be placed under another directory (see
/// `relative_part`).
pub fn relative(p: &str) -> (r: String)
    ensures
        r@ == relative_part(p@),
{
    let n = p.unicode_len();
    let mut i: usize = if n > 0 && p.get_char(0) == '/' {
        1
    } else {
        0
    };
    proof {
        assert(p@.skip(0) =~= p@);
    }
    let ghost start = i;
    while n - i >= 3 && p.get_char(i) == '.' && p.get_char(i + 1) == '.' && p.get_char(i + 2) == '/'
        invariant
            n == p@.len(),
            start <= i <= n,
            relative_part(p@) == strip_parents(p@.skip(i as int)),
        decreases n - i,
    {
        proof {
            let rest = p@.skip(i as int);
            assert(rest[0] == p@[i as int]);
            assert(rest[1] == p@[i + 1]);
            assert(rest[2] == p@[i + 2]);
            assert(rest.skip(3) =~= p@.skip(i + 3));
        }
        i = i + 3;
    }
    proof {
        reveal_strlit("");
        assert(p@.skip(i as int) =~= p@.subrange(i as int, n as int));
    }
    if n - i == 2 && p.get_char(i) == '.' && p.get_char(i + 1) == '.' {
        assert(p@.skip(i as int) =~= seq!['.', '.']);
        return String::new();
    }
    proof {
        let rest = p@.skip(i as int);
        if rest == seq!['.', '.'] {
            assert(rest[0] == p@[i as int]);
            assert(rest[1] == p@[i + 1]);
        }
        if rest.len() >= 3 && rest[0] == '.' && rest[1] == '.' && rest[2] == '/' {
            assert(rest[0] == p@[i as int]);
            assert(rest[1] == p@[i + 1]);
            assert(rest[2] == p@[i + 2]);
        }
    }
    String::from_str(p.substring_char(i, n))
}

/// A component stack as `normalized` leaves it: each part non-empty, free of
/// `/` and not `.`; the `..` parts come first, and a rooted path has none.
pub open spec fn well_formed_stack(st: Seq<Seq<char>>, rooted: bool) -> bool {
    &&& forall|i: int|
        0 <= i < st.len() ==> {
            &&& (#[trigger] st[i]).len() > 0
            &&& !st[i].contains('/')
            &&& st[i] != seq!['.']
            &&& (rooted ==> st[i] != seq!['.', '.'])
        }
    &&& forall|i: int, j: int|
        0 <= i < j < st.len() && #[trigger] st[j] == seq!['.', '.'] ==> #[trigger] st[i] == seq![
            '.',
            '.',
        ]
}

proof fn lemma_split_no_slash(s: Seq<char>, c: char)
    ensures
        forall|i: int| 0 <= i < split_on(s, c).len() ==> !(#[trigger] split_on(s, c)[i]).contains(c),
    decreases s.len(),
{
    if s.len() > 0 {
        lemma_split_no_slash(s.drop_last(), c);
        lemma_split_nonempty(s.drop_last(), c);
        let pre = split_on(s.drop_last(), c);
        if s.last() != c {
            let l = pre.last().push(s.last());
            assert forall|k: int| 0 <= k < l.len() implies l[k] != c by {
                if k < pre.last().len() {
                    assert(pre[pre.len() - 1][k] == l[k]);
                    assert(!pre[pre.len() - 1].contains(c));
                }
            }
        }
    }
}

proof fn lemma_fold_well_formed(segs: Seq<Seq<char>>, rooted: bool)
    requires
        forall|i: int| 0 <= i < segs.len() ==> !(#[trigger] segs[i]).contains('/'),
    ensures
        well_formed_stack(fold_components(segs, rooted), rooted),
    decreases segs.len(),
{
    if segs.len() > 0 {
        let pre = segs.drop_last();
        assert forall|i: int| 0 <= i < pre.len() implies !(#[trigger] pre[i]).contains('/') by {
            assert(pre[i] == segs[i]);
        }
        lemma_fold_well_formed(pre, rooted);
        assert(!segs[segs.len() - 1].contains('/'));
    }
}

proof fn lemma_split_plain(s: Seq<char>)
    requires
        !s.contains('/'),
    ensures
        split_on(s, '/') == seq![s],
    decreases s.len(),
{
    if s.len() > 0 {
        let d = s.drop_last();
        assert(!d.contains('/')) by {
            if d.contains('/') {
                let k = choose|k: int| 0 <= k < d.len() && d[k] == '/';
                assert(s[k] == '/');
            }
        }
        lemma_split_plain(d);
        assert(s[s.len() - 1] != '/');
        assert(d.push(s.last()) =~= s);
        assert(seq![d].update(0, s) =~= seq![s]);
    } else {
        assert(s =~= Seq::<char>::empty());
    }
}

proof fn lemma_split_concat(x: Seq<char>, y: Seq<char>)
    ensures
        split_on(x + seq!['/'] + y, '/') == split_on(x, '/') + split_on(y, '/'),
    decreases y.len(),
{
    let xy = x + seq!['/'] + y;
    if y.len() == 0 {
        assert(xy.drop_last() =~= x);
        assert(split_on(x, '/').push(Seq::empty()) =~= split_on(x, '/') + seq![Seq::<char>::empty()]);
    } else {
        let y2 = y.drop_last();
        lemma_split_concat(x, y2);
        lemma_split_nonempty(y2, '/');
        lemma_split_nonempty(x, '/');
        assert(xy.drop_last() =~= x + seq!['/'] + y2);
        assert(xy.last() == y.last());
        let a = split_on(x, '/');
        let b = split_on(y2, '/');
        if y.last() == '/' {
            assert((a + b).push(Seq::empty()) =~= a + b.push(Seq::empty()));
        } else {
            assert((a + b).last() == b.last());
            assert((a + b).update((a + b).len() - 1, b.last().push(y.last())) =~= a + b.update(
                b.len() - 1,
                b.last().push(y.last()),
            ));
        }
    }
}

proof fn lemma_split_join(st: Seq<Seq<char>>)
    requires
        st.len() > 0,
        forall|i: int| 0 <= i < st.len() ==> !(#[trigger] st[i]).contains('/'),
    ensures
        split_on(join_segs(st), '/') == st,
    decreases st.len(),
{
    if st.len() == 1 {
        lemma_split_plain(st[0]);
        assert(seq![st[0]] =~= st);
    } else {
        let pre = st.drop_last();
        assert forall|i: int| 0 <= i < pre.len() implies !(#[trigger] pre[i]).contains('/') by {
            assert(pre[i] == st[i]);
        }
        lemma_split_join(pre);
        lemma_split_concat(join_segs(pre), st.last());
        assert(!st[st.len() - 1].contains('/'));
        lemma_split_plain(st.last());
        assert(pre + seq![st.last()] =~= st);
    }
}

proof fn lemma_fold_reproduces(pre: Seq<Seq<char>>, st: Seq<Seq<char>>, rooted: bool)
    requires
        fold_components(pre, rooted) == Seq::<Seq<char>>::empty(),
        well_formed_stack(st, rooted),
    ensures
        fold_components(pre + st, rooted) == st,
    decreases st.len(),
{
    if st.len() == 0 {
        assert(pre + st =~= pre);
    } else {
        let s2 = st.drop_last();
        assert(well_formed_stack(s2, rooted)) by {
            assert forall|i: int, j: int|
                0 <= i < j < s2.len() && #[trigger] s2[j] == seq!['.', '.'] implies #[trigger] s2[i]
                == seq!['.', '.'] by {
                assert(st[j] == s2[j] && st[i] == s2[i]);
            }
            assert forall|i: int| 0 <= i < s2.len() implies {
                &&& (#[trigger] s2[i]).len() > 0
                &&& !s2[i].contains('/')
                &&& s2[i] != seq!['.']
                &&& (rooted ==> s2[i] != seq!['.', '.'])
            } by {
                assert(st[i] == s2[i]);
            }
        }
        lemma_fold_reproduces(pre, s2, rooted);
        assert((pre + st).drop_last() =~= pre + s2);
        assert((pre + st).last() == st.last());
        let last = st[st.len() - 1];
        assert(last.len() > 0 && last != seq!['.']);
        if last == seq!['.', '.'] && s2.len() > 0 {
            assert(st[s2.len() - 1] == seq!['.', '.']);
        }
        assert(s2.push(last) =~= st);
    }
}

proof fn lemma_join_first(st: Seq<Seq<char>>)
    requires
        st.len() > 0,
        st[0].len() > 0,
    ensures
        join_segs(st).len() > 0,
        join_segs(st)[0] == st[0][0],
    decreases st.len(),
{
    if st.len() > 1 {
        lemma_join_first(st.drop_last());
    }
}

/// Normalizing a normalized path changes nothing.
pub proof fn lemma_normalized_idempotent(p: Seq<char>)
    ensures
        normalized(normalized(p)) == normalized(p),
{
    let rooted = is_rooted(p);
    let segs = split_on(p, '/');
    lemma_split_no_slash(p, '/');
    lemma_fold_well_formed(segs, rooted);
    let st = fold_components(segs, rooted);
    let q = normalized(p);
    let empty = Seq::<Seq<char>>::empty();
    assert(fold_components(empty, rooted) == empty);
    let root_pre = seq![Seq::<char>::empty()];
    assert(root_pre.drop_last() =~= empty);
    assert(root_pre.last().len() == 0);
    assert(fold_components(root_pre.drop_last(), true) == empty);
    assert(fold_components(root_pre, true) == empty);
    if st.len() == 0 {
        if rooted {
            lemma_split_concat(Seq::empty(), Seq::empty());
            assert(Seq::<char>::empty() + seq!['/'] + Seq::<char>::empty() =~= q);
            assert(split_on(Seq::<char>::empty(), '/') + split_on(Seq::<char>::empty(), '/') =~= root_pre + root_pre);
            assert((root_pre + root_pre).drop_last() =~= root_pre);
        } else {
            assert(!seq!['.'].contains('/')) by {
                assert(seq!['.'][0] == '.');
            }
            lemma_split_plain(seq!['.']);
            assert(seq![seq!['.']].drop_last() =~= empty);
        }
    } else {
        assert forall|i: int| 0 <= i < st.len() implies !(#[trigger] st[i]).contains('/') by {}
        lemma_split_join(st);
        if rooted {
            lemma_split_concat(Seq::empty(), join_segs(st));
            assert(Seq::<char>::empty() + seq!['/'] + join_segs(st) =~= q);
            lemma_fold_reproduces(root_pre, st, true);
        } else {
            lemma_join_first(st);
            assert(st[0].len() > 0);
            assert(st[0][0] != '/') by {
                assert(!st[0].contains('/'));
            }
            assert(empty + st =~= st);
            lemma_fold_reproduces(empty, st, false);
        }
    }
}

/// Lexical normalization of a path value.
pub trait Normalize {
    fn normalize(&self) -> String;
}

impl Normalize for String {
    fn normalize(&self) -> (r: String)
        ensures
            r@ == normalized(self@),
    {
        normalize(self.as_str())
    }
}

} // verus!
