//! The page codec: how byte offsets map to pages, how pages are keyed in the
//! store, and how the bytes of one page are read and overwritten.

use vstd::prelude::*;

verus! {

/// Number of bytes in a full page.
pub const PAGE_SIZE: usize = 4096;

/// Separator between a file's path and the offset of one of its pages.
pub open spec fn page_infix() -> Seq<char> {
    ":page:"@
}

/// The decimal digit that stands for `d`, for `d` below ten.
pub open spec fn digit_char(d: nat) -> char {
    if d == 0 {
        '0'
    } else if d == 1 {
        '1'
    } else if d == 2 {
        '2'
    } else if d == 3 {
        '3'
    } else if d == 4 {
        '4'
    } else if d == 5 {
        '5'
    } else if d == 6 {
        '6'
    } else if d == 7 {
        '7'
    } else if d == 8 {
        '8'
    } else {
        '9'
    }
}

/// `n` written in base ten, without leading zeros.
pub open spec fn decimal(n: nat) -> Seq<char>
    decreases n,
{
    if n < 10 {
        seq![digit_char(n)]
    } else {
        decimal(n / 10).push(digit_char(n % 10))
    }
}

/// Offset of the first byte of the page that holds byte `offset`.
pub open spec fn page_offset_of(offset: usize) -> usize {
    (offset - offset % PAGE_SIZE) as usize
}

/// Position of byte `offset` inside its page.
pub open spec fn within_page_of(offset: usize) -> usize {
    offset % PAGE_SIZE
}

/// Store key of the page of `path` that starts at `page_offset`.
pub open spec fn page_key_of(path: Seq<char>, page_offset: usize) -> Seq<char> {
    path + page_infix() + decimal(page_offset as nat)
}

/// `page` after `data` was written into it at position `at`: the page grows
/// to hold the write, and bytes between its old end and `at` are zero.
pub open spec fn overlay(page: Seq<u8>, at: int, data: Seq<u8>) -> Seq<u8> {
    Seq::new(
        if page.len() >= at + data.len() {
            page.len()
        } else {
            (at + data.len()) as nat
        },
        |i: int|
            if at <= i < at + data.len() {
                data[i - at]
            } else if i < page.len() {
                page[i]
            } else {
                0u8
            },
    )
}

/// The bytes a read of `len` bytes at position `at` takes from `page`: none
/// at or past its end, else as many as the page still holds.
pub open spec fn window(page: Seq<u8>, at: int, len: int) -> Seq<u8> {
    if at >= page.len() {
        Seq::empty()
    } else if len <= page.len() - at {
        page.subrange(at, at + len)
    } else {
        page.subrange(at, page.len() as int)
    }
}

/// Rounds `offset` down to a multiple of the page size.
#[verifier::when_used_as_spec(page_offset_of)]
pub fn page_offset(offset: usize) -> (start: usize)
    ensures
        start == page_offset_of(offset),
        start == (offset / PAGE_SIZE) * PAGE_SIZE,
        start % PAGE_SIZE == 0,
        start <= offset < start + PAGE_SIZE,
{
    (offset / PAGE_SIZE) * PAGE_SIZE
}

/// Remainder of `offset` by the page size.
#[verifier::when_used_as_spec(within_page_of)]
pub fn within_page(offset: usize) -> (at: usize)
    ensures
        at == within_page_of(offset),
        at < PAGE_SIZE,
        page_offset_of(offset) + at == offset,
{
    offset % PAGE_SIZE
}

fn digit_str(d: usize) -> (s: &'static str)
    requires
        d < 10,
    ensures
        s@ == seq![digit_char(d as nat)],
{
    proof {
        reveal_strlit("0");
        reveal_strlit("1");
        reveal_strlit("2");
        reveal_strlit("3");
        reveal_strlit("4");
        reveal_strlit("5");
        reveal_strlit("6");
        reveal_strlit("7");
        reveal_strlit("8");
        reveal_strlit("9");
    }
    let s = if d == 0 {
        "0"
    } else if d == 1 {
        "1"
    } else if d == 2 {
        "2"
    } else if d == 3 {
        "3"
    } else if d == 4 {
        "4"
    } else if d == 5 {
        "5"
    } else if d == 6 {
        "6"
    } else if d == 7 {
        "7"
    } else if d == 8 {
        "8"
    } else {
        "9"
    };
    assert(s@ =~= seq![digit_char(d as nat)]);
    s
}

/// Writes `n` in base ten.
pub fn decimal_string(n: usize) -> (s: String)
    ensures
        s@ == decimal(n as nat),
    decreases n,
{
    let mut s = if n >= 10 {
        decimal_string(n / 10)
    } else {
        String::new()
    };
    let ghost before = s@;
    s.append(digit_str(n % 10));
    assert(s@ =~= before.push(digit_char((n % 10) as nat)));
    s
}

/// Builds the store key of the page of `path` that starts at `page_offset`:
/// the path, the separator and the offset in base ten.
pub fn page_key(path: &str, page_offset: usize) -> (key: String)
    ensures
        key@ == page_key_of(path@, page_offset),
{
    let mut key = String::from_str(path);
    key.append(":page:");
    let digits = decimal_string(page_offset);
    key.append(digits.as_str());
    key
}

/// Writes `data` into `page` at position `at`. A page that ends before
/// the end of the write grows to hold it; bytes between the old end of the
/// page and `at` become zero.
pub fn overlay_bytes(page: Vec<u8>, at: usize, data: &[u8]) -> (out: Vec<u8>)
    requires
        at + data@.len() <= usize::MAX,
    ensures
        out@ == overlay(page@, at as int, data@),
{
    let ghost before = page@;
    let mut page = page;
    let end = at + data.len();
    while page.len() < end
        invariant
            before.len() <= page@.len(),
            page@.len() <= end || page@.len() == before.len(),
            forall|i: int| 0 <= i < before.len() ==> page@[i] == before[i],
            forall|i: int| before.len() <= i < page@.len() ==> page@[i] == 0u8,
        decreases end - page.len(),
    {
        page.push(0u8);
    }
    let ghost grown = page@;
    let mut i: usize = 0;
    while i < data.len()
        invariant
            end == at + data@.len(),
            end <= page.len(),
            page@.len() == grown.len(),
            i <= data@.len(),
            before.len() <= grown.len(),
            grown.len() == end || grown.len() == before.len(),
            forall|j: int| 0 <= j < before.len() ==> grown[j] == before[j],
            forall|j: int| before.len() <= j < grown.len() ==> grown[j] == 0u8,
            forall|j: int| at <= j < at + i ==> page@[j] == data@[j - at],
            forall|j: int| 0 <= j < page@.len() && !(at <= j < at + i) ==> page@[j] == grown[j],
        decreases data@.len() - i,
    {
        page.set(at + i, data[i]);
        i += 1;
    }
    assert(page@.len() == overlay(before, at as int, data@).len());
    assert forall|j: int| 0 <= j < page@.len() implies page@[j] == overlay(
        before,
        at as int,
        data@,
    )[j] by {
        if !(at <= j < at + data@.len()) {
            assert(page@[j] == grown[j]);
        }
    }
    assert(page@ =~= overlay(before, at as int, data@));
    page
}

/// Copies from `page` what a read of `len` bytes at position `at` gets:
/// nothing at or past the end of the page, else the bytes up to the end of
/// the page or of the read, whichever comes first.
pub fn window_bytes(page: &Vec<u8>, at: usize, len: usize) -> (out: Vec<u8>)
    ensures
        out@ == window(page@, at as int, len as int),
{
    let mut out: Vec<u8> = Vec::new();
    if at >= page.len() {
        return out;
    }
    let count = if len <= page.len() - at {
        len
    } else {
        page.len() - at
    };
    let mut i: usize = 0;
    while i < count
        invariant
            at + count <= page.len(),
            i <= count,
            out@ == page@.subrange(at as int, at + i),
        decreases count - i,
    {
        out.push(page[at + i]);
        i += 1;
        assert(out@ =~= page@.subrange(at as int, at + i));
    }
    out
}

/// Every number has at least one digit.
pub proof fn lemma_decimal_nonempty(n: nat)
    ensures
        decimal(n).len() >= 1,
        n >= 10 ==> decimal(n).len() >= 2,
    decreases n,
{
    if n >= 10 {
        lemma_decimal_nonempty(n / 10);
    }
}

/// The digits of a number hold no colon.
pub proof fn lemma_decimal_has_no_colon(n: nat, i: int)
    requires
        0 <= i < decimal(n).len(),
    ensures
        decimal(n)[i] != ':',
    decreases n,
{
    if n >= 10 {
        if i < decimal(n / 10).len() {
            lemma_decimal_has_no_colon(n / 10, i);
        }
    }
}

/// Two numbers with the same digits are the same number.
pub proof fn lemma_decimal_injective(a: nat, b: nat)
    requires
        decimal(a) == decimal(b),
    ensures
        a == b,
    decreases a,
{
    lemma_decimal_nonempty(a);
    lemma_decimal_nonempty(b);
    if a < 10 || b < 10 {
        assert(decimal(a).len() == 1);
        assert(a < 10 && b < 10);
        assert(decimal(a)[0] == digit_char(a));
        assert(decimal(b)[0] == digit_char(b));
    } else {
        let da = decimal(a / 10);
        let db = decimal(b / 10);
        assert(decimal(a).drop_last() =~= da);
        assert(decimal(b).drop_last() =~= db);
        assert(decimal(a).last() == digit_char(a % 10));
        assert(decimal(b).last() == digit_char(b % 10));
        lemma_decimal_injective(a / 10, b / 10);
    }
}

/// The pages of one file have different keys.
pub proof fn lemma_page_key_injective(path: Seq<char>, a: usize, b: usize)
    requires
        page_key_of(path, a) == page_key_of(path, b),
    ensures
        a == b,
{
    let prefix = path + page_infix();
    let ka = page_key_of(path, a);
    let kb = page_key_of(path, b);
    assert(ka.subrange(prefix.len() as int, ka.len() as int) =~= decimal(a as nat));
    assert(kb.subrange(prefix.len() as int, kb.len() as int) =~= decimal(b as nat));
    lemma_decimal_injective(a as nat, b as nat);
}

/// Pages of different files have different keys: a key is the key of one
/// page of one file.
pub proof fn lemma_page_keys_differ(path: Seq<char>, a: usize, other: Seq<char>, b: usize)
    requires
        page_key_of(path, a) == page_key_of(other, b),
    ensures
        path == other,
        a == b,
{
    reveal_strlit(":page:");
    let infix = page_infix();
    let key = page_key_of(path, a);
    let twin = page_key_of(other, b);
    assert(infix.len() == 6 && infix[5] == ':');
    assert(key.len() == path.len() + 6 + decimal(a as nat).len());
    assert(twin.len() == other.len() + 6 + decimal(b as nat).len());
    if path.len() < other.len() {
        let at = other.len() as int + 5;
        assert(twin[at] == infix[5]);
        assert(key[at] == decimal(a as nat)[at - path.len() - 6]);
        lemma_decimal_has_no_colon(a as nat, at - path.len() - 6);
    } else if other.len() < path.len() {
        let at = path.len() as int + 5;
        assert(key[at] == infix[5]);
        assert(twin[at] == decimal(b as nat)[at - other.len() - 6]);
        lemma_decimal_has_no_colon(b as nat, at - other.len() - 6);
    } else {
        assert(path =~= key.subrange(0, path.len() as int));
        assert(other =~= twin.subrange(0, other.len() as int));
        lemma_page_key_injective(path, a, b);
    }
}

/// No page of a file is stored under the file's own path, where its marker is.
pub proof fn lemma_page_key_is_not_path(path: Seq<char>, offset: usize)
    ensures
        page_key_of(path, offset) != path,
{
    lemma_decimal_nonempty(offset as nat);
    assert(page_key_of(path, offset).len() > path.len());
}

/// Reading back what was just written gives the bytes written.
pub proof fn lemma_window_of_overlay(page: Seq<u8>, at: int, data: Seq<u8>)
    requires
        0 <= at,
    ensures
        window(overlay(page, at, data), at, data.len() as int) == data,
{
    assert(window(overlay(page, at, data), at, data.len() as int) =~= data);
}

/// A read never gets more bytes than it asked for, nor bytes past the end
/// of the page.
pub proof fn lemma_window_len(page: Seq<u8>, at: int, len: int)
    requires
        0 <= at,
        0 <= len,
    ensures
        window(page, at, len).len() <= len,
        at + window(page, at, len).len() <= page.len() || window(page, at, len).len() == 0,
{
}

/// A write that ends inside the page keeps a page within the page size.
pub proof fn lemma_overlay_stays_in_page(page: Seq<u8>, at: int, data: Seq<u8>)
    requires
        0 <= at,
        page.len() <= PAGE_SIZE,
        at + data.len() <= PAGE_SIZE,
    ensures
        overlay(page, at, data).len() <= PAGE_SIZE,
        overlay(page, at, data).len() >= page.len(),
{
}

} // verus!
