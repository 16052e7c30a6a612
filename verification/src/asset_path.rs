//! Canonical virtual asset paths and their stable 64-bit identifiers.
use vstd::prelude::*;
use vstd::utf8::encode_utf8;

verus! {

/// Longest accepted asset path in UTF-8 bytes.
pub const MAX_ASSET_PATH_BYTES: usize = 4096;

/// Errors produced while converting an external path into an engine asset key.
#[derive(Clone, Copy, Debug, PartialEq, Eq, Structural)]
pub enum AssetPathError {
    Empty,
    TooLong,
    Absolute,
    WindowsPrefix,
    ParentTraversal,
    NulByte,
}

impl AssetPathError {
    /// Stable user-facing message.
    pub fn message(&self) -> (s: &'static str)
        ensures
            s@ == match *self {
                AssetPathError::Empty => "asset path is empty"@,
                AssetPathError::TooLong => "asset path exceeds 4096 bytes"@,
                AssetPathError::Absolute => "absolute asset paths are not allowed"@,
                AssetPathError::WindowsPrefix => "Windows drive/UNC prefixes are not allowed"@,
                AssetPathError::ParentTraversal => "asset path attempts to escape its virtual root"@,
                AssetPathError::NulByte => "asset path contains a NUL byte"@,
            },
    {
        match self {
            AssetPathError::Empty => "asset path is empty",
            AssetPathError::TooLong => "asset path exceeds 4096 bytes",
            AssetPathError::Absolute => "absolute asset paths are not allowed",
            AssetPathError::WindowsPrefix => "Windows drive/UNC prefixes are not allowed",
            AssetPathError::ParentTraversal => "asset path attempts to escape its virtual root",
            AssetPathError::NulByte => "asset path contains a NUL byte",
        }
    }
}

/// Path separators: both `/` and `\` split components.
pub open spec fn is_separator(c: char) -> bool {
    c == '/' || c == '\\'
}

/// Components of `s` between separators, including empty ones (`"a//b/"` has four).
pub open spec fn components(s: Seq<char>) -> Seq<Seq<char>>
    decreases s.len(),
{
    if s.len() == 0 {
        seq![Seq::<char>::empty()]
    } else {
        let init = components(s.drop_last());
        if is_separator(s.last()) {
            init.push(Seq::<char>::empty())
        } else {
            init.update(init.len() - 1, init.last().push(s.last()))
        }
    }
}

/// What `str::to_lowercase` returns for a string with these characters (Unicode lowercase
/// mapping, including context-dependent final sigma).
pub uninterp spec fn str_lowercase(s: Seq<char>) -> Seq<char>;

/// Lowercase copy of a string.
#[verifier::external_body]
fn lowercase(s: &str) -> (r: String)
    ensures
        r@ == str_lowercase(s@),
{
    s.to_lowercase()
}

/// Applies one component to the resolved stack: `""` and `"."` are skipped, `".."` pops
/// (failing at the root) and any other component is pushed lowercased.
pub open spec fn resolve_step(acc: Option<Seq<Seq<char>>>, part: Seq<char>) -> Option<
    Seq<Seq<char>>,
> {
    match acc {
        None => None,
        Some(stack) => if part.len() == 0 || part == seq!['.'] {
            Some(stack)
        } else if part == seq!['.', '.'] {
            if stack.len() == 0 {
                None
            } else {
                Some(stack.drop_last())
            }
        } else {
            Some(stack.push(str_lowercase(part)))
        },
    }
}

/// Resolves components left to right; `None` when `..` escapes the root.
pub open spec fn resolve(parts: Seq<Seq<char>>) -> Option<Seq<Seq<char>>>
    decreases parts.len(),
{
    if parts.len() == 0 {
        Some(Seq::empty())
    } else {
        resolve_step(resolve(parts.drop_last()), parts.last())
    }
}

/// Components joined by `/`.
pub open spec fn join_components(parts: Seq<Seq<char>>) -> Seq<char>
    decreases parts.len(),
{
    if parts.len() == 0 {
        Seq::empty()
    } else if parts.len() == 1 {
        parts[0]
    } else {
        join_components(parts.drop_last()) + seq!['/'] + parts.last()
    }
}

/// ASCII letter byte.
pub open spec fn is_ascii_letter(b: u8) -> bool {
    (65 <= b <= 90) || (97 <= b <= 122)
}

/// The canonical form of a virtual asset path, or why it is rejected. Checks apply in
/// this order: empty, length, NUL byte, UNC prefix, absolute path, drive letter, escape
/// above the root, nothing left.
pub open spec fn normalize_spec(path: Seq<char>) -> Result<Seq<char>, AssetPathError> {
    let bytes = encode_utf8(path);
    if path.len() == 0 {
        Err(AssetPathError::Empty)
    } else if bytes.len() > MAX_ASSET_PATH_BYTES {
        Err(AssetPathError::TooLong)
    } else if bytes.contains(0u8) {
        Err(AssetPathError::NulByte)
    } else if path.len() >= 2 && is_separator(path[0]) && is_separator(path[1]) {
        Err(AssetPathError::WindowsPrefix)
    } else if is_separator(path[0]) {
        Err(AssetPathError::Absolute)
    } else if bytes.len() >= 2 && bytes[1] == 58u8 && is_ascii_letter(bytes[0]) {
        Err(AssetPathError::WindowsPrefix)
    } else {
        match resolve(components(path)) {
            None => Err(AssetPathError::ParentTraversal),
            Some(parts) => if parts.len() == 0 {
                Err(AssetPathError::Empty)
            } else {
                Ok(join_components(parts))
            },
        }
    }
}

proof fn lemma_components_nonempty(s: Seq<char>)
    ensures
        components(s).len() >= 1,
    decreases s.len(),
{
    if s.len() > 0 {
        lemma_components_nonempty(s.drop_last());
    }
}

/// Extending a prefix by one character either opens a new component or extends the last.
proof fn lemma_components_step(s: Seq<char>, i: int, done: Seq<Seq<char>>, start: int)
    requires
        0 <= start <= i < s.len(),
        components(s.take(i)) == done.push(s.subrange(start, i)),
    ensures
        is_separator(s[i]) ==> components(s.take(i + 1)) == done.push(s.subrange(start, i)).push(
            s.subrange(i + 1, i + 1),
        ),
        !is_separator(s[i]) ==> components(s.take(i + 1)) == done.push(s.subrange(start, i + 1)),
{
    assert(s.take(i + 1).drop_last() =~= s.take(i));
    assert(s.take(i + 1).last() == s[i]);
    assert(s.subrange(i + 1, i + 1) =~= Seq::<char>::empty());
    assert(s.subrange(start, i).push(s[i]) =~= s.subrange(start, i + 1));
    let init = components(s.take(i));
    assert(init.len() - 1 == done.len());
    assert(init.update(init.len() - 1, init.last().push(s[i])) =~= done.push(
        s.subrange(start, i + 1),
    ));
}

/// Once resolution fails, later components cannot repair it.
proof fn lemma_resolve_none_sticks(parts: Seq<Seq<char>>, more: Seq<Seq<char>>)
    requires
        resolve(parts) is None,
    ensures
        resolve(parts + more) is None,
    decreases more.len(),
{
    if more.len() == 0 {
        assert(parts + more =~= parts);
    } else {
        lemma_resolve_none_sticks(parts, more.drop_last());
        assert((parts + more).drop_last() =~= parts + more.drop_last());
    }
}

/// Completed components of a prefix stay components of every longer prefix.
proof fn lemma_components_prefix(s: Seq<char>, i: int, j: int)
    requires
        0 <= i <= j <= s.len(),
    ensures
        components(s.take(j)).len() >= components(s.take(i)).len(),
        components(s.take(i)).drop_last() =~= components(s.take(j)).take(
            components(s.take(i)).len() - 1,
        ),
    decreases j - i,
{
    lemma_components_nonempty(s.take(i));
    if i < j {
        lemma_components_prefix(s, i, j - 1);
        assert(s.take(j).drop_last() =~= s.take(j - 1));
        lemma_components_nonempty(s.take(j - 1));
    }
}

/// Strings with a stable character view; `&str` and `String` implement it.
fn chars_of(path: &str) -> (r: Vec<char>)
    ensures
        r@ == path@,
{
    let mut out: Vec<char> = Vec::new();
    let n = path.unicode_len();
    let mut i: usize = 0;
    while i < n
        invariant
            n == path@.len(),
            i <= n,
            out@ == path@.take(i as int),
        decreases n - i,
    {
        out.push(path.get_char(i));
        i = i + 1;
        assert(out@ =~= path@.take(i as int));
    }
    assert(path@.take(n as int) =~= path@);
    out
}

/// A component that survives resolution: non-empty, neither `.` nor `..`, without separators.
pub open spec fn plain_part(q: Seq<char>) -> bool {
    &&& q.len() > 0
    &&& q != seq!['.']
    &&& q != seq!['.', '.']
    &&& forall|i: int| 0 <= i < q.len() ==> !is_separator(#[trigger] q[i])
}

/// Every part is the lowercase form of a plain component.
pub open spec fn lowered_parts(parts: Seq<Seq<char>>) -> bool {
    forall|i: int| 0 <= i < parts.len() ==> exists|q: Seq<char>| plain_part(q) && #[trigger] parts[i] == str_lowercase(q)
}

proof fn lemma_components_separator_free(s: Seq<char>)
    ensures
        forall|k: int, i: int|
            0 <= k < components(s).len() && 0 <= i < components(s)[k].len() ==> !is_separator(
                #[trigger] components(s)[k][i],
            ),
    decreases s.len(),
{
    if s.len() > 0 {
        lemma_components_separator_free(s.drop_last());
        lemma_components_nonempty(s.drop_last());
        let init = components(s.drop_last());
        if !is_separator(s.last()) {
            let last = init.last().push(s.last());
            assert forall|k: int, i: int|
                0 <= k < components(s).len() && 0 <= i < components(s)[k].len() implies !is_separator(
                #[trigger] components(s)[k][i],
            ) by {
                if k == init.len() - 1 {
                    assert(components(s)[k] == last);
                    if i < last.len() - 1 {
                        assert(last[i] == init[k][i]);
                    }
                } else {
                    assert(components(s)[k] == init[k]);
                }
            }
        } else {
            assert forall|k: int, i: int|
                0 <= k < components(s).len() && 0 <= i < components(s)[k].len() implies !is_separator(
                #[trigger] components(s)[k][i],
            ) by {
                if k < init.len() {
                    assert(components(s)[k] == init[k]);
                }
            }
        }
    }
}

proof fn lemma_resolve_lowered(parts: Seq<Seq<char>>)
    requires
        forall|k: int, i: int| 0 <= k < parts.len() && 0 <= i < parts[k].len() ==> !is_separator(#[trigger] parts[k][i]),
    ensures
        resolve(parts) matches Some(stack) ==> lowered_parts(stack),
    decreases parts.len(),
{
    if parts.len() > 0 {
        let init = parts.drop_last();
        assert forall|k: int, i: int| 0 <= k < init.len() && 0 <= i < init[k].len() implies !is_separator(
            #[trigger] init[k][i],
        ) by {
            assert(init[k] == parts[k]);
        }
        lemma_resolve_lowered(init);
        let part = parts.last();
        if let Some(stack) = resolve(init) {
            if !(part.len() == 0 || part == seq!['.']) && part != seq!['.', '.'] {
                let next = stack.push(str_lowercase(part));
                assert(plain_part(part)) by {
                    assert forall|i: int| 0 <= i < part.len() implies !is_separator(#[trigger] part[i]) by {
                        assert(part[i] == parts[parts.len() - 1][i]);
                    }
                }
                assert forall|i: int| 0 <= i < next.len() implies exists|q: Seq<char>| plain_part(q) && #[trigger] next[i]
                    == str_lowercase(q) by {
                    if i < stack.len() {
                        assert(next[i] == stack[i]);
                    } else {
                        assert(next[i] == str_lowercase(part));
                    }
                }
            } else if part == seq!['.', '.'] && stack.len() > 0 {
                let next = stack.drop_last();
                assert forall|i: int| 0 <= i < next.len() implies exists|q: Seq<char>| plain_part(q) && #[trigger] next[i]
                    == str_lowercase(q) by {
                    assert(next[i] == stack[i]);
                }
            }
        }
    }
}

/// An accepted key is one or more parts joined by `/`, each the lowercase form of a
/// non-empty component that is neither `.` nor `..` and holds no separator.
pub proof fn lemma_normal_form(path: Seq<char>)
    requires
        normalize_spec(path) is Ok,
    ensures
        exists|parts: Seq<Seq<char>>|
            parts.len() >= 1 && lowered_parts(parts) && #[trigger] join_components(parts) == normalize_spec(path)->Ok_0,
{
    lemma_components_separator_free(path);
    lemma_resolve_lowered(components(path));
    let parts = resolve(components(path))->Some_0;
    assert(join_components(parts) == normalize_spec(path)->Ok_0);
}

/// Canonicalizes a relative virtual asset path. Attempts to escape the root are rejected.
///
/// The prefix checks look at the path as given, before `.` components are dropped: `./c:/x`
/// is accepted as `c:/x`, a key that is itself refused as a drive prefix.
pub fn normalize_path(path: &str) -> (r: Result<String, AssetPathError>)
    ensures
        match r {
            Ok(s) => normalize_spec(path@) == Ok::<Seq<char>, AssetPathError>(s@),
            Err(e) => normalize_spec(path@) == Err::<Seq<char>, AssetPathError>(e),
        },
{
    let ghost s = path@;
    if path.is_empty() {
        return Err(AssetPathError::Empty);
    }
    let bytes = path.as_bytes();
    proof {
        assert(bytes@ == encode_utf8(path@));
    }
    if bytes.len() > MAX_ASSET_PATH_BYTES {
        return Err(AssetPathError::TooLong);
    }
    let mut k: usize = 0;
    while k < bytes.len()
        invariant
            bytes@ == encode_utf8(path@),
            path@.len() != 0,
            bytes@.len() <= MAX_ASSET_PATH_BYTES,
            k <= bytes@.len(),
            forall|m: int| 0 <= m < k ==> bytes@[m] != 0u8,
        decreases bytes@.len() - k,
    {
        if bytes[k] == 0 {
            proof {
                assert(bytes@[k as int] == 0u8);
                assert(bytes@.contains(0u8));
                assert(encode_utf8(path@).contains(0u8));
                assert(normalize_spec(path@) == Err::<Seq<char>, AssetPathError>(AssetPathError::NulByte));
            }
            return Err(AssetPathError::NulByte);
        }
        k = k + 1;
    }
    proof {
        assert(!bytes@.contains(0u8));
    }
    let chars = chars_of(path);
    let n = chars.len();
    if n >= 2 && is_separator_char(chars[0]) && is_separator_char(chars[1]) {
        return Err(AssetPathError::WindowsPrefix);
    }
    if is_separator_char(chars[0]) {
        return Err(AssetPathError::Absolute);
    }
    if bytes.len() >= 2 && bytes[1] == 58u8 && is_ascii_letter_byte(bytes[0]) {
        return Err(AssetPathError::WindowsPrefix);
    }
    let mut parts: Vec<String> = Vec::new();
    let ghost mut done: Seq<Seq<char>> = Seq::empty();
    let mut start: usize = 0;
    let mut i: usize = 0;
    proof {
        assert(s.take(0) =~= Seq::<char>::empty());
        assert(s.subrange(0, 0) =~= Seq::<char>::empty());
        assert(components(s.take(0)) =~= seq![Seq::<char>::empty()]);
        assert(done.push(s.subrange(0, 0)) =~= seq![Seq::<char>::empty()]);
    }
    while i < n
        invariant
            n == s.len(),
            s == path@,
            chars@ == s,
            normalize_spec(s) == match resolve(components(s)) {
                None => Err(AssetPathError::ParentTraversal),
                Some(parts) => if parts.len() == 0 {
                    Err(AssetPathError::Empty)
                } else {
                    Ok(join_components(parts))
                },
            },
            0 <= start <= i <= n,
            components(s.take(i as int)) == done.push(s.subrange(start as int, i as int)),
            resolve(done) == Some(string_views(parts@)),
        decreases n - i,
    {
        proof {
            lemma_components_step(s, i as int, done, start as int);
        }
        if is_separator_char(chars[i]) {
            let ghost part = s.subrange(start as int, i as int);
            let ok = apply_component(&mut parts, path, start, i);
            if !ok {
                proof {
                    lemma_components_prefix(s, i + 1, n as int);
                    let whole = components(s.take(n as int));
                    let head = done.push(part);
                    assert(head.drop_last() =~= done);
                    assert(resolve(head) == resolve_step(resolve(done), part));
                    assert(s.take(n as int) =~= s);
                    assert(components(s.take(i + 1)).drop_last() =~= head);
                    assert(whole =~= head + whole.subrange(head.len() as int, whole.len() as int));
                    lemma_resolve_none_sticks(head, whole.subrange(head.len() as int, whole.len() as int));
                    assert(resolve(whole) is None);
                    assert(whole == components(path@));
                }
                return Err(AssetPathError::ParentTraversal);
            }
            proof {
                assert(done.push(part).drop_last() =~= done);
                assert(resolve(done.push(part)) == resolve_step(resolve(done), part));
                done = done.push(part);
            }
            start = i + 1;
        }
        i = i + 1;
    }
    let ghost part = s.subrange(start as int, n as int);
    let ok = apply_component(&mut parts, path, start, n);
    proof {
        assert(s.take(n as int) =~= s);
        assert(components(s) == done.push(part));
        assert(done.push(part).drop_last() =~= done);
        assert(resolve(components(s)) == resolve_step(resolve(done), part));
    }
    if !ok {
        return Err(AssetPathError::ParentTraversal);
    }
    if parts.len() == 0 {
        return Err(AssetPathError::Empty);
    }
    Ok(join_parts(&parts))
}

fn is_separator_char(c: char) -> (b: bool)
    ensures
        b == is_separator(c),
{
    c == '/' || c == '\\'
}

fn is_ascii_letter_byte(b: u8) -> (r: bool)
    ensures
        r == is_ascii_letter(b),
{
    (65 <= b && b <= 90) || (97 <= b && b <= 122)
}

/// Views of a list of strings.
pub open spec fn string_views(s: Seq<String>) -> Seq<Seq<char>> {
    s.map_values(|x: String| x@)
}

/// Applies component `path[start..end]` to `parts`; `false` when `..` escapes the root.
fn apply_component(parts: &mut Vec<String>, path: &str, start: usize, end: usize) -> (ok: bool)
    requires
        start <= end <= path@.len(),
    ensures
        ok == resolve_step(Some(string_views(old(parts)@)), path@.subrange(start as int, end as int)) is Some,
        ok ==> resolve_step(Some(string_views(old(parts)@)), path@.subrange(start as int, end as int))
            == Some(string_views(final(parts)@)),
{
    let ghost part = path@.subrange(start as int, end as int);
    let len = end - start;
    if len == 0 {
        return true;
    }
    let first = path.get_char(start);
    if len == 1 && first == '.' {
        proof {
            assert(part =~= seq!['.']);
        }
        return true;
    }
    if len == 2 && first == '.' && path.get_char(start + 1) == '.' {
        proof {
            assert(part =~= seq!['.', '.']);
        }
        if parts.len() == 0 {
            return false;
        }
        let ghost before = parts@;
        parts.pop();
        proof {
            assert(string_views(parts@) =~= string_views(before).drop_last());
        }
        return true;
    }
    proof {
        if len == 1 {
            assert(part[0] == first);
            assert(part != seq!['.']) by {
                if part == seq!['.'] {
                    assert(part[0] == '.');
                }
            }
        }
        if len == 2 {
            assert(part != seq!['.', '.']) by {
                if part == seq!['.', '.'] {
                    assert(part[0] == '.');
                    assert(part[1] == '.');
                }
            }
        }
        assert(part != seq!['.']) by {
            if part == seq!['.'] {
                assert(part.len() == 1);
            }
        }
        assert(part != seq!['.', '.']) by {
            if part == seq!['.', '.'] {
                assert(part.len() == 2);
            }
        }
    }
    let component = path.substring_char(start, end);
    let lowered = lowercase(component);
    let ghost before = parts@;
    parts.push(lowered);
    proof {
        assert(string_views(parts@) =~= string_views(before).push(lowered@));
    }
    true
}

/// Joins components with `/`.
fn join_parts(parts: &Vec<String>) -> (r: String)
    ensures
        r@ == join_components(string_views(parts@)),
{
    let mut out = String::new();
    let mut i: usize = 0;
    while i < parts.len()
        invariant
            i <= parts@.len(),
            out@ == join_components(string_views(parts@).take(i as int)),
        decreases parts@.len() - i,
    {
        let ghost prefix = string_views(parts@).take(i as int);
        let ghost next = string_views(parts@).take(i + 1);
        proof {
            assert(next.drop_last() =~= prefix);
            assert(next.last() == parts@[i as int]@);
        }
        if i > 0 {
            out.append("/");
            proof {
                reveal_strlit("/");
            }
        } else {
            proof {
                assert(prefix =~= Seq::<Seq<char>>::empty());
            }
        }
        out.append(parts[i].as_str());
        i = i + 1;
    }
    proof {
        assert(string_views(parts@).take(parts@.len() as int) =~= string_views(parts@));
    }
    out
}

/// FNV-1a offset basis.
pub const FNV_OFFSET: u64 = 0xcbf29ce484222325;

/// FNV-1a prime.
pub const FNV_PRIME: u64 = 0x100000001b3;

/// 64-bit FNV-1a hash of a byte sequence.
pub open spec fn fnv1a(bytes: Seq<u8>) -> u64
    decreases bytes.len(),
{
    if bytes.len() == 0 {
        FNV_OFFSET
    } else {
        (fnv1a(bytes.drop_last()) ^ (bytes.last() as u64)).wrapping_mul(FNV_PRIME)
    }
}

/// FNV-1a over the UTF-8 bytes of `s`.
pub fn fnv1a_str(s: &str) -> (h: u64)
    ensures
        h == fnv1a(encode_utf8(s@)),
{
    let bytes = s.as_bytes();
    let mut hash: u64 = FNV_OFFSET;
    let mut i: usize = 0;
    while i < bytes.len()
        invariant
            i <= bytes@.len(),
            bytes@ == encode_utf8(s@),
            hash == fnv1a(bytes@.take(i as int)),
        decreases bytes@.len() - i,
    {
        proof {
            assert(bytes@.take(i + 1).drop_last() =~= bytes@.take(i as int));
        }
        hash = hash ^ (bytes[i] as u64);
        hash = hash.wrapping_mul(FNV_PRIME);
        i = i + 1;
    }
    proof {
        assert(bytes@.take(bytes@.len() as int) =~= bytes@);
    }
    hash
}

} // verus!
