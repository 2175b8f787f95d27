//! Names of local files.
use vstd::prelude::*;

use crate::file_meta::FileType;
use crate::text::{append_dec, dec_text, hex_digit, hex_digit_str, str_eq};

verus! {

/// What the names of local table meta end with.
pub const TABLE_META_LOCAL_FILE_SUFFIX: &'static str = "meta";

/// What the names of local segments end with.
pub const SEGMENT_LOCAL_FILE_SUFFIX: &'static str = "seg";

/// What the names of files end with that are being written.
pub const TEMPORARY_FILE_SUFFIX: &'static str = "tmp";

/// What the names of files of each kind end with.
pub open spec fn suffix_of(ft: FileType) -> Seq<char> {
    match ft {
        FileType::Sst => "sst"@,
        FileType::TxnChunk => "txn"@,
        FileType::Schema => "schema"@,
        FileType::Columnar => "col"@,
        FileType::Blob => "blob"@,
        FileType::VectorIndex => "vec"@,
        FileType::FtsPackedFile => "ftsp"@,
        FileType::FtsDedicatedFile => "ftsd"@,
    }
}

/// What the names of files of the kind end with.
pub fn file_suffix(ft: FileType) -> (res: &'static str)
    ensures
        res@ == suffix_of(ft),
{
    match ft {
        FileType::Sst => "sst",
        FileType::TxnChunk => "txn",
        FileType::Schema => "schema",
        FileType::Columnar => "col",
        FileType::Blob => "blob",
        FileType::VectorIndex => "vec",
        FileType::FtsPackedFile => "ftsp",
        FileType::FtsDedicatedFile => "ftsd",
    }
}

/// The kind of the files whose names end so.
pub fn file_type_of(suffix: &str) -> (res: Option<FileType>)
    ensures
        match res {
            Some(ft) => suffix@ == suffix_of(ft),
            None => forall|ft: FileType| suffix@ != #[trigger] suffix_of(ft),
        },
{
    if str_eq(suffix, "sst") {
        Some(FileType::Sst)
    } else if str_eq(suffix, "txn") {
        Some(FileType::TxnChunk)
    } else if str_eq(suffix, "schema") {
        Some(FileType::Schema)
    } else if str_eq(suffix, "col") {
        Some(FileType::Columnar)
    } else if str_eq(suffix, "blob") {
        Some(FileType::Blob)
    } else if str_eq(suffix, "vec") {
        Some(FileType::VectorIndex)
    } else if str_eq(suffix, "ftsp") {
        Some(FileType::FtsPackedFile)
    } else if str_eq(suffix, "ftsd") {
        Some(FileType::FtsDedicatedFile)
    } else {
        None
    }
}

proof fn reveal_suffixes()
    ensures
        "sst"@ =~= seq!['s', 's', 't'],
        "txn"@ =~= seq!['t', 'x', 'n'],
        "schema"@ =~= seq!['s', 'c', 'h', 'e', 'm', 'a'],
        "col"@ =~= seq!['c', 'o', 'l'],
        "blob"@ =~= seq!['b', 'l', 'o', 'b'],
        "vec"@ =~= seq!['v', 'e', 'c'],
        "ftsp"@ =~= seq!['f', 't', 's', 'p'],
        "ftsd"@ =~= seq!['f', 't', 's', 'd'],
        "meta"@ =~= seq!['m', 'e', 't', 'a'],
{
    reveal_strlit("sst");
    reveal_strlit("txn");
    reveal_strlit("schema");
    reveal_strlit("col");
    reveal_strlit("blob");
    reveal_strlit("vec");
    reveal_strlit("ftsp");
    reveal_strlit("ftsd");
    reveal_strlit("meta");
}

/// Files of different kinds have names with different ends.
pub proof fn lemma_suffixes_differ(a: FileType, b: FileType)
    requires
        suffix_of(a) == suffix_of(b),
    ensures
        a == b,
{
    reveal_suffixes();
    let s = suffix_of(a);
    let t = suffix_of(b);
    assert(s.len() == t.len() && s[0] == t[0] && s[1] == t[1] && s[2] == t[2]);
    if s.len() == 4 {
        assert(s[3] == t[3]);
    }
}

/// The lowest digits of a number, the highest of them first.
pub open spec fn hex_text(n: nat, len: nat) -> Seq<char>
    decreases len,
{
    if len == 0 {
        Seq::empty()
    } else {
        hex_text(n / 16, (len - 1) as nat).push(hex_digit(n % 16))
    }
}

/// What a digit stands for.
pub open spec fn digit_value(c: char) -> Option<nat> {
    if '0' <= c && c <= '9' {
        Some((c as int - '0' as int) as nat)
    } else if 'a' <= c && c <= 'f' {
        Some((c as int - 'a' as int + 10) as nat)
    } else if 'A' <= c && c <= 'F' {
        Some((c as int - 'A' as int + 10) as nat)
    } else {
        None
    }
}

/// All are digits.
pub open spec fn all_digits(s: Seq<char>) -> bool {
    forall|i: int| 0 <= i < s.len() ==> digit_value(#[trigger] s[i]) is Some
}

/// The number that digits write.
pub open spec fn digits_value(s: Seq<char>) -> nat
    decreases s.len(),
{
    if s.len() == 0 {
        0
    } else {
        16 * digits_value(s.drop_last()) + digit_value(s.last())->0
    }
}

/// The text without a sign.
pub open spec fn unsigned(s: Seq<char>) -> Seq<char> {
    if s.len() > 0 && s[0] == '+' {
        s.drop_first()
    } else {
        s
    }
}

/// The number that a text writes in base sixteen: digits of either case, one at
/// least, with or without a plus sign, and no more than 64 bits.
pub open spec fn hex_value(s: Seq<char>) -> Option<u64> {
    let digits = unsigned(s);
    if digits.len() > 0 && all_digits(digits) && digits_value(digits) <= u64::MAX {
        Some(digits_value(digits) as u64)
    } else {
        None
    }
}

/// Appends the lowest digits of a number.
fn append_hex(out: &mut String, n: u64, len: usize)
    ensures
        final(out)@ == old(out)@ + hex_text(n as nat, len as nat),
    decreases len,
{
    if len == 0 {
        assert(old(out)@ + hex_text(n as nat, 0) =~= old(out)@);
        return ;
    }
    append_hex(out, n / 16, len - 1);
    let ghost mid = out@;
    out.append(hex_digit_str(n % 16));
    assert(out@ =~= old(out)@ + hex_text(n as nat, len as nat));
}

/// The name of a file: its id in sixteen digits and what its kind ends with.
pub open spec fn name_of(file_id: u64, ft: FileType) -> Seq<char> {
    hex_text(file_id as nat, 16) + "."@ + suffix_of(ft)
}

/// The name of the table meta of a file.
pub open spec fn meta_name_of(file_id: u64, ft: FileType) -> Seq<char> {
    name_of(file_id, ft) + "."@ + "meta"@
}

/// A name in a directory. The separator is left out where the directory is empty
/// or ends with one.
pub open spec fn joined_path(dir: Seq<char>, name: Seq<char>) -> Seq<char> {
    if dir.len() == 0 || dir.last() == '/' {
        dir + name
    } else {
        dir + "/"@ + name
    }
}

/// There is a remote form of such files.
pub open spec fn has_table_meta(ft: FileType) -> bool {
    !(ft is TxnChunk || ft is Schema)
}

/// The name of a file.
pub fn file_name(file_id: u64, ft: FileType) -> (res: String)
    ensures
        res@ == name_of(file_id, ft),
{
    let mut res = String::new();
    append_hex(&mut res, file_id, 16);
    res.append(".");
    res.append(file_suffix(ft));
    assert(res@ =~= name_of(file_id, ft));
    res
}

/// A name in a directory.
pub fn join_path(dir: &str, name: &str) -> (res: String)
    ensures
        res@ == joined_path(dir@, name@),
{
    let mut res = String::new();
    res.append(dir);
    assert(res@ =~= dir@);
    let len = dir.unicode_len();
    if len > 0 && dir.get_char(len - 1) != '/' {
        res.append("/");
    }
    res.append(name);
    assert(res@ =~= joined_path(dir@, name@));
    res
}

/// Where the table meta of a file is kept.
pub fn table_meta_file_local_path(file_id: u64, file_type: FileType, data_dir: &str) -> (res:
    String)
    requires
        has_table_meta(file_type),
    ensures
        res@ == joined_path(data_dir@, meta_name_of(file_id, file_type)),
{
    let mut name = file_name(file_id, file_type);
    name.append(".");
    name.append(TABLE_META_LOCAL_FILE_SUFFIX);
    assert(name@ =~= meta_name_of(file_id, file_type));
    join_path(data_dir, name.as_str())
}

/// Where a file of the shard is kept.
pub fn local_file_path(dir: &str, file_id: u64, file_type: FileType) -> (res: String)
    requires
        !(file_type is TxnChunk),
    ensures
        res@ == joined_path(dir@, name_of(file_id, file_type)),
{
    join_path(dir, file_name(file_id, file_type).as_str())
}

/// The text has no dot.
pub open spec fn no_dot(s: Seq<char>) -> bool {
    forall|i: int| 0 <= i < s.len() ==> #[trigger] s[i] != '.'
}

/// The text is three parts with dots between them.
pub open spec fn three_parts(s: Seq<char>, a: Seq<char>, b: Seq<char>, c: Seq<char>) -> bool {
    &&& no_dot(a)
    &&& no_dot(b)
    &&& no_dot(c)
    &&& s == a + seq!['.'] + b + seq!['.'] + c
}

/// The name is that of the table meta of the file.
pub open spec fn names_meta_of(s: Seq<char>, file_id: u64, ft: FileType) -> bool {
    exists|a: Seq<char>| #[trigger]
        three_parts(s, a, suffix_of(ft), "meta"@) && hex_value(a) == Some(file_id)
}

/// Where the first dot is at or behind a place; the length where there is none.
fn find_dot(s: &str, from: usize, len: usize) -> (res: usize)
    requires
        from <= len,
        len == s@.len(),
    ensures
        from <= res <= len,
        forall|i: int| from <= i < res ==> s@[i] != '.',
        res < len ==> s@[res as int] == '.',
{
    let mut i = from;
    while i < len
        invariant
            from <= i <= len,
            len == s@.len(),
            forall|j: int| from <= j < i ==> s@[j] != '.',
        decreases len - i,
    {
        if s.get_char(i) == '.' {
            return i;
        }
        i = i + 1;
    }
    i
}

/// Three parts are found where the dots are.
proof fn lemma_parts(s: Seq<char>, a: Seq<char>, b: Seq<char>, c: Seq<char>)
    requires
        three_parts(s, a, b, c),
    ensures
        s.len() == a.len() + b.len() + c.len() + 2,
        s[a.len() as int] == '.',
        s[(a.len() + 1 + b.len()) as int] == '.',
        a == s.take(a.len() as int),
        b == s.subrange((a.len() + 1) as int, (a.len() + 1 + b.len()) as int),
        c == s.subrange((a.len() + b.len() + 2) as int, s.len() as int),
        forall|i: int| 0 <= i < s.len() && s[i] == '.' ==> i == a.len() || i == a.len() + 1 + b.len(),
{
    assert(a =~= s.take(a.len() as int));
    assert(b =~= s.subrange((a.len() + 1) as int, (a.len() + 1 + b.len()) as int));
    assert(c =~= s.subrange((a.len() + b.len() + 2) as int, s.len() as int));
    assert forall|i: int| 0 <= i < s.len() && s[i] == '.' implies i == a.len() || i == a.len() + 1
        + b.len() by {
        if i < a.len() {
            assert(a[i] == s[i]);
        } else if a.len() < i < a.len() + 1 + b.len() {
            assert(b[i - a.len() - 1] == s[i]);
        } else if i > a.len() + 1 + b.len() {
            assert(c[i - a.len() - b.len() - 2] == s[i]);
        }
    }
}

/// The number that a text writes in base sixteen.
pub fn parse_hex(s: &str) -> (res: Option<u64>)
    ensures
        res == hex_value(s@),
{
    let len = s.unicode_len();
    let mut i: usize = 0;
    if len > 0 && s.get_char(0) == '+' {
        i = 1;
    }
    let ghost digits = unsigned(s@);
    let ghost from = i as int;
    assert(digits =~= s@.skip(from));
    if i == len {
        return None;
    }
    let mut n: u64 = 0;
    assert(digits.take(0) =~= Seq::empty());
    while i < len
        invariant
            0 <= from <= 1,
            from <= i <= len,
            len == s@.len(),
            from < len,
            digits == s@.skip(from),
            digits == unsigned(s@),
            all_digits(digits.take(i - from)),
            n == digits_value(digits.take(i - from)),
        decreases len - i,
    {
        let c = s.get_char(i);
        let ghost k = i - from;
        assert(digits[k] == c);
        assert(digits.take(k + 1).drop_last() =~= digits.take(k));
        let d: u64 = if '0' <= c && c <= '9' {
            c as u64 - '0' as u64
        } else if 'a' <= c && c <= 'f' {
            c as u64 - 'a' as u64 + 10
        } else if 'A' <= c && c <= 'F' {
            c as u64 - 'A' as u64 + 10
        } else {
            assert(digit_value(digits[k]) is None);
            return None;
        };
        proof {
            assert forall|j: int| 0 <= j < k + 1 implies digit_value(
                #[trigger] digits.take(k + 1)[j],
            ) is Some by {
                if j < k {
                    assert(digits.take(k)[j] == digits.take(k + 1)[j]);
                }
            }
            lemma_digits_grow(digits, k + 1);
        }
        if n > (u64::MAX - d) / 16 {
            return None;
        }
        n = n * 16 + d;
        i = i + 1;
    }
    assert(digits.take(i - from) =~= digits);
    Some(n)
}

/// More digits write no smaller number.
proof fn lemma_digits_grow(s: Seq<char>, k: int)
    requires
        0 <= k <= s.len(),
    ensures
        digits_value(s.take(k)) <= digits_value(s),
    decreases s.len() - k,
{
    if k < s.len() {
        lemma_digits_grow(s, k + 1);
        assert(s.take(k + 1).drop_last() =~= s.take(k));
    } else {
        assert(s.take(k) =~= s);
    }
}

/// The file that a name of table meta is of.
pub fn parse_table_meta_filename(filename: &str) -> (res: Option<(u64, FileType)>)
    ensures
        match res {
            Some((file_id, ft)) => names_meta_of(filename@, file_id, ft),
            None => forall|file_id: u64, ft: FileType|
                !#[trigger] names_meta_of(filename@, file_id, ft),
        },
{
    let len = filename.unicode_len();
    let first = find_dot(filename, 0, len);
    let ghost s = filename@;
    if first == len {
        assert forall|file_id: u64, ft: FileType| !#[trigger] names_meta_of(s, file_id, ft) by {
            lemma_where(s, file_id, ft, first as int, len as int, len as int);
        }
        return None;
    }
    let second = find_dot(filename, first + 1, len);
    if second == len {
        assert forall|file_id: u64, ft: FileType| !#[trigger] names_meta_of(s, file_id, ft) by {
            lemma_where(s, file_id, ft, first as int, second as int, len as int);
        }
        return None;
    }
    let third = find_dot(filename, second + 1, len);
    if third < len {
        assert forall|file_id: u64, ft: FileType| !#[trigger] names_meta_of(s, file_id, ft) by {
            lemma_where(s, file_id, ft, first as int, second as int, third as int);
        }
        return None;
    }
    let a = filename.substring_char(0, first);
    let b = filename.substring_char(first + 1, second);
    let c = filename.substring_char(second + 1, len);
    proof {
        assert(a@ =~= s.take(first as int));
        assert(s =~= a@ + seq!['.'] + b@ + seq!['.'] + c@);
    }
    if !str_eq(c, TABLE_META_LOCAL_FILE_SUFFIX) {
        assert forall|file_id: u64, ft: FileType| !#[trigger] names_meta_of(s, file_id, ft) by {
            lemma_where(s, file_id, ft, first as int, second as int, len as int);
        }
        return None;
    }
    match (parse_hex(a), file_type_of(b)) {
        (Some(file_id), Some(ft)) => {
            assert(three_parts(s, a@, suffix_of(ft), "meta"@));
            Some((file_id, ft))
        },
        _ => {
            assert forall|file_id: u64, ft: FileType| !#[trigger] names_meta_of(
                s,
                file_id,
                ft,
            ) by {
                lemma_where(s, file_id, ft, first as int, second as int, len as int);
            }
            None
        },
    }
}

/// A name of table meta has its parts where the dots are.
proof fn lemma_where(s: Seq<char>, file_id: u64, ft: FileType, first: int, second: int, third: int)
    requires
        0 <= first <= s.len(),
        forall|i: int| 0 <= i < first ==> s[i] != '.',
        first < s.len() ==> s[first] == '.',
        first < s.len() ==> first < second <= s.len(),
        forall|i: int| first < i < second ==> s[i] != '.',
        first < second < s.len() ==> s[second] == '.',
        first < second < s.len() ==> second < third <= s.len(),
        forall|i: int| second < i < third ==> s[i] != '.',
        second < third < s.len() ==> s[third] == '.',
    ensures
        names_meta_of(s, file_id, ft) ==> {
            &&& first < second < s.len() && third == s.len()
            &&& hex_value(s.subrange(0, first)) == Some(file_id)
            &&& s.subrange(first + 1, second) == suffix_of(ft)
            &&& s.subrange(second + 1, s.len() as int) == "meta"@
        },
{
    if names_meta_of(s, file_id, ft) {
        let a = choose|a: Seq<char>| #[trigger]
            three_parts(s, a, suffix_of(ft), "meta"@) && hex_value(a) == Some(file_id);
        let b = suffix_of(ft);
        lemma_parts(s, a, b, "meta"@);
        let n = a.len() as int;
        let m = (a.len() + 1 + b.len()) as int;
        assert(s[n] == '.' && s[m] == '.');
        assert(first == n);
        assert(second == m);
        assert(s.subrange(0, first) =~= s.take(n));
    }
}

/// A name of table meta is that of one file.
pub proof fn law_meta_name_is_of_one_file(
    s: Seq<char>,
    id1: u64,
    ft1: FileType,
    id2: u64,
    ft2: FileType,
)
    requires
        names_meta_of(s, id1, ft1),
        names_meta_of(s, id2, ft2),
    ensures
        id1 == id2,
        ft1 == ft2,
{
    let a1 = choose|a: Seq<char>| #[trigger]
        three_parts(s, a, suffix_of(ft1), "meta"@) && hex_value(a) == Some(id1);
    let a2 = choose|a: Seq<char>| #[trigger]
        three_parts(s, a, suffix_of(ft2), "meta"@) && hex_value(a) == Some(id2);
    lemma_parts(s, a1, suffix_of(ft1), "meta"@);
    lemma_parts(s, a2, suffix_of(ft2), "meta"@);
    let n1 = a1.len() as int;
    let n2 = a2.len() as int;
    assert(s[n1] == '.' && s[n2] == '.');
    if n1 < n2 {
        assert(a2[n1] == s[n1]);
    } else if n2 < n1 {
        assert(a1[n2] == s[n2]);
    }
    assert(suffix_of(ft1) == suffix_of(ft2));
    lemma_suffixes_differ(ft1, ft2);
}

proof fn lemma_hex_digit(d: nat)
    requires
        d < 16,
    ensures
        digit_value(hex_digit(d)) == Some(d),
        hex_digit(d) != '.',
        hex_digit(d) != '+',
{
    let all = seq!['0', '1', '2', '3', '4', '5', '6', '7', '8', '9', 'a', 'b', 'c', 'd', 'e', 'f'];
    assert(all.len() == 16);
    assert(hex_digit(d) == all[d as int]);
}

/// Sixteen to the power of `len`.
pub open spec fn pow16(len: nat) -> nat
    decreases len,
{
    if len == 0 {
        1
    } else {
        16 * pow16((len - 1) as nat)
    }
}

proof fn lemma_hex_roundtrip(n: nat, len: nat)
    requires
        n < pow16(len),
    ensures
        hex_text(n, len).len() == len,
        all_digits(hex_text(n, len)),
        digits_value(hex_text(n, len)) == n,
        no_dot(hex_text(n, len)),
        len > 0 ==> hex_text(n, len)[0] != '+',
    decreases len,
{
    if len > 0 {
        let rest = hex_text(n / 16, (len - 1) as nat);
        lemma_hex_roundtrip(n / 16, (len - 1) as nat);
        lemma_hex_digit(n % 16);
        let s = hex_text(n, len);
        assert(s.drop_last() =~= rest);
        assert forall|i: int| 0 <= i < s.len() implies digit_value(#[trigger] s[i]) is Some && s[i]
            != '.' by {
            if i < rest.len() {
                assert(s[i] == rest[i]);
            }
        }
        if len > 1 {
            assert(s[0] == rest[0]);
        }
    }
}

/// The name of the table meta of a file is read back as that of the file.
pub proof fn law_meta_name_is_read_back(file_id: u64, ft: FileType)
    ensures
        names_meta_of(meta_name_of(file_id, ft), file_id, ft),
{
    reveal_suffixes();
    reveal_strlit(".");
    reveal_with_fuel(pow16, 17);
    assert(pow16(16) == 0x1_0000_0000_0000_0000);
    lemma_hex_roundtrip(file_id as nat, 16);
    let a = hex_text(file_id as nat, 16);
    assert(unsigned(a) =~= a);
    assert("."@ =~= seq!['.']);
    assert(meta_name_of(file_id, ft) =~= a + seq!['.'] + suffix_of(ft) + seq!['.'] + "meta"@);
    assert(no_dot(suffix_of(ft)));
    assert(three_parts(meta_name_of(file_id, ft), a, suffix_of(ft), "meta"@));
}

/// How much of the first `k` characters of a path is not the ending of its last
/// name: up to the last dot, if that is in the last name and not its first
/// character.
pub open spec fn stem_len(s: Seq<char>, k: nat) -> nat
    decreases k,
{
    if k <= 1 || s[k - 1] == '/' {
        s.len()
    } else if s[k - 1] == '.' {
        if s[k - 2] == '/' {
            s.len()
        } else {
            (k - 1) as nat
        }
    } else {
        stem_len(s, (k - 1) as nat)
    }
}

/// The name under which a file is written before it gets its own: its ending is
/// replaced by a number and that of temporary files.
pub fn tmp_file_path(file_path: &str, tmp_id: u64) -> (res: String)
    requires
        file_path@.len() > 0,
        file_path@.last() != '/',
        file_path@.last() != '.',
    ensures
        res@ == file_path@.take(stem_len(file_path@, file_path@.len()) as int) + "."@ + dec_text(
            tmp_id as nat,
        ) + "."@ + "tmp"@,
{
    let len = file_path.unicode_len();
    let mut k = len;
    while k > 1 && file_path.get_char(k - 1) != '/' && file_path.get_char(k - 1) != '.'
        invariant
            k <= len,
            len == file_path@.len(),
            stem_len(file_path@, k as nat) == stem_len(file_path@, len as nat),
        decreases k,
    {
        k = k - 1;
    }
    let stem = if k > 1 && file_path.get_char(k - 1) == '.' && file_path.get_char(k - 2) != '/' {
        k - 1
    } else {
        len
    };
    let mut res = String::new();
    res.append(file_path.substring_char(0, stem));
    res.append(".");
    append_dec(&mut res, tmp_id);
    res.append(".");
    res.append(TEMPORARY_FILE_SUFFIX);
    assert(res@ =~= file_path@.take(stem as int) + "."@ + dec_text(tmp_id as nat) + "."@ + "tmp"@);
    res
}

} // verus!
