use vstd::prelude::*;

verus! {

/// A generic tree value: the untyped content of a JSON or YAML document.
#[derive(Debug, PartialEq)]
pub enum Tree {
    Null,
    Bool(bool),
    /// A number, kept as its decimal text.
    Number(String),
    Str(String),
    Array(Vec<Tree>),
    /// An object, as its entries in document order.
    Object(Vec<(String, Tree)>),
}

/// Index of the first `c` in `s` at or after `from`, or `s.len()` when there is none.
pub open spec fn index_of_from(s: Seq<char>, c: char, from: int) -> int
    decreases s.len() - from,
{
    if from >= s.len() {
        s.len() as int
    } else if s[from] == c {
        from
    } else {
        index_of_from(s, c, from + 1)
    }
}

pub proof fn lemma_index_of_from(s: Seq<char>, c: char, from: int)
    requires
        0 <= from <= s.len(),
    ensures
        from <= index_of_from(s, c, from) <= s.len(),
        index_of_from(s, c, from) < s.len() ==> s[index_of_from(s, c, from)] == c,
        forall|k: int| from <= k < index_of_from(s, c, from) ==> s[k] != c,
    decreases s.len() - from,
{
    if from < s.len() && s[from] != c {
        lemma_index_of_from(s, c, from + 1);
    }
}

pub open spec fn is_digit(c: char) -> bool {
    '0' as u32 <= c as u32 <= '9' as u32
}

/// The value of a string of decimal digits.
pub open spec fn digits_value(s: Seq<char>) -> nat
    decreases s.len(),
{
    if s.len() == 0 {
        0
    } else {
        digits_value(s.drop_last()) * 10 + (s.last() as u32 - '0' as u32) as nat
    }
}

/// The array index that a pointer token names: decimal digits without sign or leading zero.
pub open spec fn index_token(tok: Seq<char>) -> Option<nat> {
    if tok.len() > 0 && (forall|k: int| 0 <= k < tok.len() ==> is_digit(#[trigger] tok[k])) && !(
    tok[0] == '0' && tok.len() != 1) {
        Some(digits_value(tok))
    } else {
        None
    }
}

/// `s` with each `~` followed by `second` read as `out`, left to right.
pub open spec fn unescape_pair(s: Seq<char>, second: char, out: char) -> Seq<char>
    decreases s.len(),
{
    if s.len() == 0 {
        s
    } else if s.len() >= 2 && s[0] == '~' && s[1] == second {
        seq![out] + unescape_pair(s.subrange(2, s.len() as int), second, out)
    } else {
        seq![s[0]] + unescape_pair(s.subrange(1, s.len() as int), second, out)
    }
}

/// A pointer token as it names a key: `~1` read as `/`, then `~0` read as `~`.
pub open spec fn unescape_token(s: Seq<char>) -> Seq<char> {
    unescape_pair(unescape_pair(s, '1', '/'), '0', '~')
}

/// Index of the first entry at or after `from` whose key is `key`, or -1.
pub open spec fn key_index_from(v: Seq<(String, Tree)>, key: Seq<char>, from: int) -> int
    decreases v.len() - from,
{
    if from < 0 || from >= v.len() {
        -1
    } else if v[from].0@ == key {
        from
    } else {
        key_index_from(v, key, from + 1)
    }
}

pub proof fn lemma_key_index_from(v: Seq<(String, Tree)>, key: Seq<char>, from: int)
    requires
        0 <= from <= v.len(),
    ensures
        key_index_from(v, key, from) == -1 || from <= key_index_from(v, key, from) < v.len(),
        key_index_from(v, key, from) >= 0 ==> v[key_index_from(v, key, from)].0@ == key,
    decreases v.len() - from,
{
    if from < v.len() && v[from].0@ != key {
        lemma_key_index_from(v, key, from + 1);
    }
}

/// The child of `t` that one unescaped pointer token names.
pub open spec fn step(t: Tree, tok: Seq<char>) -> Option<Tree> {
    match t {
        Tree::Object(v) => {
            let k = key_index_from(v@, tok, 0);
            if k >= 0 {
                Some(v@[k].1)
            } else {
                None
            }
        },
        Tree::Array(v) => match index_token(tok) {
            Some(i) => if i < v.len() {
                Some(v@[i as int])
            } else {
                None
            },
            None => None,
        },
        _ => None,
    }
}

/// Follows the tokens of pointer `p` from position `from` (just after a `/`).
pub open spec fn lookup_from(t: Tree, p: Seq<char>, from: int) -> Option<Tree>
    decreases p.len() - from,
{
    let e = index_of_from(p, '/', from);
    match step(t, unescape_token(p.subrange(from, e))) {
        None => None,
        Some(n) => if from <= e < p.len() {
            lookup_from(n, p, e + 1)
        } else {
            Some(n)
        },
    }
}

/// JSON-pointer lookup: the empty pointer names the whole tree, any other must start with `/`.
pub open spec fn pointer_spec(t: Tree, p: Seq<char>) -> Option<Tree> {
    if p.len() == 0 {
        Some(t)
    } else if p[0] != '/' {
        None
    } else {
        lookup_from(t, p, 1)
    }
}

/// `b` is `a` with the value that `p` names from position `from` replaced by `val`.
pub open spec fn replaced_from(a: Tree, b: Tree, p: Seq<char>, from: int, val: Tree) -> bool
    decreases p.len() - from,
{
    let e = index_of_from(p, '/', from);
    let tok = unescape_token(p.subrange(from, e));
    match a {
        Tree::Object(va) => match b {
            Tree::Object(vb) => {
                let k = key_index_from(va@, tok, 0);
                &&& 0 <= k < va.len()
                &&& vb.len() == va.len()
                &&& forall|j: int| 0 <= j < va.len() && j != k ==> vb@[j] == va@[j]
                &&& vb@[k].0 == va@[k].0
                &&& if from <= e < p.len() {
                    replaced_from(va@[k].1, vb@[k].1, p, e + 1, val)
                } else {
                    vb@[k].1 == val
                }
            },
            _ => false,
        },
        Tree::Array(va) => match b {
            Tree::Array(vb) => match index_token(tok) {
                Some(i) => {
                    &&& i < va.len()
                    &&& vb.len() == va.len()
                    &&& forall|j: int| 0 <= j < va.len() && j != i ==> vb@[j] == va@[j]
                    &&& if from <= e < p.len() {
                        replaced_from(va@[i as int], vb@[i as int], p, e + 1, val)
                    } else {
                        vb@[i as int] == val
                    }
                },
                None => false,
            },
            _ => false,
        },
        _ => false,
    }
}

/// `b` is `a` with the value that pointer `p` names replaced by `val`.
pub open spec fn replaced(a: Tree, b: Tree, p: Seq<char>, val: Tree) -> bool {
    if p.len() == 0 {
        b == val
    } else {
        p[0] == '/' && replaced_from(a, b, p, 1, val)
    }
}

proof fn lemma_key_index_same(
    va: Seq<(String, Tree)>,
    vb: Seq<(String, Tree)>,
    key: Seq<char>,
    k: int,
    from: int,
)
    requires
        0 <= from <= k < va.len(),
        vb.len() == va.len(),
        key_index_from(va, key, from) == k,
        forall|j: int| 0 <= j < va.len() && j != k ==> vb[j] == va[j],
        vb[k].0 == va[k].0,
    ensures
        key_index_from(vb, key, from) == k,
    decreases k - from,
{
    lemma_key_index_from(va, key, from + 1);
    if from < k {
        assert(vb[from] == va[from]);
        lemma_key_index_same(va, vb, key, k, from + 1);
    }
}

proof fn lemma_replaced_from_lookup(a: Tree, b: Tree, p: Seq<char>, from: int, val: Tree)
    requires
        1 <= from <= p.len(),
        replaced_from(a, b, p, from, val),
    ensures
        lookup_from(b, p, from) == Some(val),
    decreases p.len() - from,
{
    let e = index_of_from(p, '/', from);
    let tok = unescape_token(p.subrange(from, e));
    lemma_index_of_from(p, '/', from);
    match a {
        Tree::Object(va) => {
            if let Tree::Object(vb) = b {
                let k = key_index_from(va@, tok, 0);
                lemma_key_index_same(va@, vb@, tok, k, 0);
                if from <= e < p.len() {
                    lemma_replaced_from_lookup(va@[k].1, vb@[k].1, p, e + 1, val);
                }
            }
        },
        Tree::Array(va) => {
            if let Tree::Array(vb) = b {
                let i = index_token(tok)->Some_0;
                if from <= e < p.len() {
                    lemma_replaced_from_lookup(va@[i as int], vb@[i as int], p, e + 1, val);
                }
            }
        },
        _ => {},
    }
}

/// After the value at a pointer is replaced, the pointer names the new value.
pub proof fn lemma_replaced_pointer(a: Tree, b: Tree, p: Seq<char>, val: Tree)
    requires
        replaced(a, b, p, val),
    ensures
        pointer_spec(b, p) == Some(val),
{
    if p.len() > 0 {
        lemma_replaced_from_lookup(a, b, p, 1, val);
    }
}

/// The characters of `s`.
pub fn chars_of(s: &str) -> (r: Vec<char>)
    ensures
        r@ == s@,
{
    let len = s.unicode_len();
    let mut out: Vec<char> = Vec::new();
    let mut i: usize = 0;
    while i < len
        invariant
            0 <= i <= len,
            len == s@.len(),
            out@ == s@.subrange(0, i as int),
        decreases len - i,
    {
        out.push(s.get_char(i));
        i = i + 1;
        proof {
            assert(out@ =~= s@.subrange(0, i as int));
        }
    }
    proof {
        assert(s@.subrange(0, len as int) =~= s@);
    }
    out
}

fn unescape_pass(v: &Vec<char>, second: char, out_c: char) -> (r: Vec<char>)
    ensures
        r@ == unescape_pair(v@, second, out_c),
{
    let mut out: Vec<char> = Vec::new();
    let mut i: usize = 0;
    proof {
        assert(v@.subrange(0, v.len() as int) =~= v@);
        assert(out@ + v@ =~= v@);
    }
    while i < v.len()
        invariant
            0 <= i <= v.len(),
            out@ + unescape_pair(v@.subrange(i as int, v.len() as int), second, out_c)
                == unescape_pair(v@, second, out_c),
        decreases v.len() - i,
    {
        let ghost rest = v@.subrange(i as int, v.len() as int);
        let ghost before = out@;
        if i + 1 < v.len() && v[i] == '~' && v[i + 1] == second {
            proof {
                assert(rest.subrange(2, rest.len() as int) =~= v@.subrange(i + 2, v.len() as int));
            }
            out.push(out_c);
            i = i + 2;
            proof {
                let tail = unescape_pair(v@.subrange(i as int, v.len() as int), second, out_c);
                assert(out@ + tail =~= before + (seq![out_c] + tail));
            }
        } else {
            proof {
                assert(rest.subrange(1, rest.len() as int) =~= v@.subrange(i + 1, v.len() as int));
            }
            out.push(v[i]);
            i = i + 1;
            proof {
                let tail2 = unescape_pair(v@.subrange(i as int, v.len() as int), second, out_c);
                assert(out@ + tail2 =~= before + (seq![v@[i - 1]] + tail2));
            }
        }
    }
    proof {
        assert(out@ + Seq::<char>::empty() =~= out@);
    }
    out
}

/// The token `tok` as it names a key: `~1` read as `/`, then `~0` read as `~`.
pub fn unescape(tok: &str) -> (r: Vec<char>)
    ensures
        r@ == unescape_token(tok@),
{
    let chars = chars_of(tok);
    let slashes = unescape_pass(&chars, '1', '/');
    unescape_pass(&slashes, '0', '~')
}

/// Whether the text of `s` is the characters `c`.
fn chars_eq(s: &String, c: &Vec<char>) -> (r: bool)
    ensures
        r == (s@ == c@),
{
    let n = s.as_str().unicode_len();
    if n != c.len() {
        return false;
    }
    let mut i: usize = 0;
    while i < n
        invariant
            0 <= i <= n,
            n == s@.len(),
            n == c@.len(),
            forall|k: int| 0 <= k < i ==> s@[k] == c@[k],
        decreases n - i,
    {
        if s.as_str().get_char(i) != c[i] {
            return false;
        }
        i = i + 1;
    }
    proof {
        assert(s@ =~= c@);
    }
    true
}

/// Position of the first `c` in `s` at or after `from`.
pub fn find_char_from(s: &str, c: char, from: usize, len: usize) -> (r: usize)
    requires
        len == s@.len(),
        from <= len,
    ensures
        r == index_of_from(s@, c, from as int),
        from <= r <= len,
{
    let mut i: usize = from;
    while i < len
        invariant
            from <= i <= len,
            len == s@.len(),
            index_of_from(s@, c, i as int) == index_of_from(s@, c, from as int),
        decreases len - i,
    {
        if s.get_char(i) == c {
            return i;
        }
        i = i + 1;
    }
    i
}

proof fn lemma_digits_grow(s: Seq<char>, i: int)
    requires
        0 <= i <= s.len(),
        forall|k: int| 0 <= k < s.len() ==> is_digit(#[trigger] s[k]),
    ensures
        digits_value(s.subrange(0, i)) <= digits_value(s),
    decreases s.len() - i,
{
    if i < s.len() {
        lemma_digits_grow(s, i + 1);
        assert(s.subrange(0, i + 1).drop_last() =~= s.subrange(0, i));
    } else {
        assert(s.subrange(0, i) =~= s);
    }
}

/// The array index that `tok` names, when it is below `bound`.
pub fn parse_index(tok: &Vec<char>, bound: usize) -> (r: Option<usize>)
    ensures
        match r {
            Some(i) => index_token(tok@) == Some(i as nat) && i < bound,
            None => match index_token(tok@) {
                Some(i) => i >= bound,
                None => true,
            },
        },
{
    let len = tok.len();
    if len == 0 {
        return None;
    }
    let first = tok[0];
    if first == '0' && len != 1 {
        return None;
    }
    let mut v: u128 = 0;
    let mut i: usize = 0;
    while i < len
        invariant
            0 <= i <= len,
            len == tok@.len(),
            len > 0,
            tok@[0] == first,
            !(first == '0' && len != 1),
            forall|k: int| 0 <= k < i ==> is_digit(#[trigger] tok@[k]),
            v as nat == digits_value(tok@.subrange(0, i as int)),
            v <= bound as u128,
        decreases len - i,
    {
        let c = tok[i];
        if !('0' as u32 <= c as u32 && c as u32 <= '9' as u32) {
            return None;
        }
        let d: u128 = (c as u32 - '0' as u32) as u128;
        proof {
            assert(tok@.subrange(0, i as int + 1).drop_last() =~= tok@.subrange(0, i as int));
        }
        v = v * 10 + d;
        i = i + 1;
        if v > bound as u128 {
            proof {
                if forall|k: int| 0 <= k < tok@.len() ==> is_digit(#[trigger] tok@[k]) {
                    lemma_digits_grow(tok@, i as int);
                }
            }
            return None;
        }
    }
    proof {
        assert(tok@.subrange(0, len as int) =~= tok@);
    }
    if v == bound as u128 {
        None
    } else {
        Some(v as usize)
    }
}

impl Tree {
    /// The child that one unescaped pointer token names.
    pub fn step<'a>(&'a self, tok: &Vec<char>) -> (r: Option<&'a Tree>)
        ensures
            match r {
                Some(n) => step(*self, tok@) == Some(*n),
                None => step(*self, tok@) is None,
            },
    {
        match self {
            Tree::Object(v) => match Tree::key_position(v, tok) {
                Some(k) => Some(&v[k].1),
                None => None,
            },
            Tree::Array(v) => match parse_index(tok, v.len()) {
                Some(i) => Some(&v[i]),
                None => None,
            },
            _ => None,
        }
    }

    /// JSON-pointer lookup.
    pub fn pointer<'a>(&'a self, p: &str) -> (r: Option<&'a Tree>)
        ensures
            match r {
                Some(n) => pointer_spec(*self, p@) == Some(*n),
                None => pointer_spec(*self, p@) is None,
            },
    {
        let len = p.unicode_len();
        if len == 0 {
            return Some(self);
        }
        if p.get_char(0) != '/' {
            return None;
        }
        let mut cur: &Tree = self;
        let mut from: usize = 1;
        loop
            invariant
                1 <= from <= len,
                len == p@.len(),
                pointer_spec(*self, p@) == lookup_from(*cur, p@, from as int),
            decreases len - from,
        {
            let e = find_char_from(p, '/', from, len);
            let tok = unescape(p.substring_char(from, e));
            match cur.step(&tok) {
                None => {
                    return None;
                },
                Some(n) => {
                    if e < len {
                        cur = n;
                        from = e + 1;
                    } else {
                        return Some(n);
                    }
                },
            }
        }
    }
}

impl Tree {
    /// The position of the first entry whose key is `key`.
    pub fn key_position(v: &Vec<(String, Tree)>, key: &Vec<char>) -> (r: Option<usize>)
        ensures
            match r {
                Some(k) => key_index_from(v@, key@, 0) == k as int && k < v.len(),
                None => key_index_from(v@, key@, 0) == -1,
            },
    {
        let mut k: usize = 0;
        while k < v.len()
            invariant
                0 <= k <= v.len(),
                key_index_from(v@, key@, k as int) == key_index_from(v@, key@, 0),
            decreases v.len() - k,
        {
            if chars_eq(&v[k].0, key) {
                return Some(k);
            }
            k = k + 1;
        }
        None
    }

    /// Replaces the value that `p` names from position `from` with `val`.
    fn replace_from(&mut self, p: &str, from: usize, len: usize, val: Tree)
        requires
            1 <= from <= len,
            len == p@.len(),
            lookup_from(*old(self), p@, from as int) is Some,
        ensures
            replaced_from(*old(self), *final(self), p@, from as int, val),
        decreases len - from,
    {
        let e = find_char_from(p, '/', from, len);
        let tok = unescape(p.substring_char(from, e));
        match self {
            Tree::Object(v) => {
                let k = match Tree::key_position(v, &tok) {
                    Some(k) => k,
                    None => {
                        return;
                    },
                };
                let mut entry: (String, Tree) = (String::new(), Tree::Null);
                v.set_and_swap(k, &mut entry);
                if e < len {
                    entry.1.replace_from(p, e + 1, len, val);
                } else {
                    entry.1 = val;
                }
                v.set_and_swap(k, &mut entry);
            },
            Tree::Array(v) => {
                let i = match parse_index(&tok, v.len()) {
                    Some(i) => i,
                    None => {
                        return;
                    },
                };
                let mut child: Tree = Tree::Null;
                v.set_and_swap(i, &mut child);
                if e < len {
                    child.replace_from(p, e + 1, len, val);
                } else {
                    child = val;
                }
                v.set_and_swap(i, &mut child);
            },
            _ => {},
        }
    }

    /// Replaces the value that pointer `p` names with `val`; false, with nothing changed,
    /// when `p` names no value.
    pub fn replace_pointer(&mut self, p: &str, val: Tree) -> (r: bool)
        ensures
            r == (pointer_spec(*old(self), p@) is Some),
            r ==> replaced(*old(self), *final(self), p@, val),
            !r ==> *final(self) == *old(self),
    {
        if self.pointer(p).is_none() {
            return false;
        }
        let len = p.unicode_len();
        if len == 0 {
            *self = val;
        } else {
            self.replace_from(p, 1, len, val);
        }
        true
    }
}

} // verus!
