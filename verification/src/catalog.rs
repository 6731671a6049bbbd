use vstd::prelude::*;

verus! {

/// Whether `marker` stands in `text` at position `at`.
pub open spec fn stands_at(text: Seq<char>, marker: Seq<char>, at: int) -> bool {
    &&& 0 <= at
    &&& at + marker.len() <= text.len()
    &&& text.subrange(at, at + marker.len()) == marker
}

/// Whether `at` is the first position at which `marker` stands in `text`.
pub open spec fn first_at(text: Seq<char>, marker: Seq<char>, at: int) -> bool {
    &&& stands_at(text, marker, at)
    &&& forall|k: int| 0 <= k < at ==> !stands_at(text, marker, k)
}

/// The fields written one after another with a comma between each two.
pub open spec fn joined(fields: Seq<Seq<char>>) -> Seq<char>
    decreases fields.len(),
{
    if fields.len() == 0 {
        Seq::empty()
    } else if fields.len() == 1 {
        fields[0]
    } else {
        joined(fields.drop_last()) + seq![','] + fields.last()
    }
}

/// Whether `fields` are `text` cut at its commas: at least one field, none
/// with a comma in it, and together, commas put back, the text.
pub open spec fn is_split(text: Seq<char>, fields: Seq<Seq<char>>) -> bool {
    &&& fields.len() >= 1
    &&& joined(fields) == text
    &&& forall|k: int| 0 <= k < fields.len() ==> !(#[trigger] fields[k]).contains(',')
}

/// The characters of `text`, one by one.
pub fn chars_of(text: &str) -> (chars: Vec<char>)
    ensures
        chars@ == text@,
{
    let mut chars: Vec<char> = Vec::new();
    for c in iter: text.chars()
        invariant
            iter.seq() == text@,
            chars@ == iter.seq().take(iter.index() as int),
    {
        chars.push(c);
        assert(chars@ =~= iter.seq().take(iter.index() + 1));
    }
    assert(chars@ =~= text@);
    chars
}

/// Whether `marker` stands in `text` at position `at`.
fn matches_at(text: &Vec<char>, marker: &Vec<char>, at: usize) -> (found: bool)
    requires
        at + marker@.len() <= text@.len(),
    ensures
        found == stands_at(text@, marker@, at as int),
{
    assert(text.len() == text@.len());
    let mut k: usize = 0;
    while k < marker.len()
        invariant
            k <= marker@.len(),
            at + marker@.len() <= text@.len(),
            text@.len() <= usize::MAX,
            forall|j: int| 0 <= j < k ==> text@[at + j] == marker@[j],
        decreases marker@.len() - k,
    {
        if text[at + k] != marker[k] {
            assert(text@.subrange(at as int, at + marker@.len())[k as int] != marker@[k as int]);
            return false;
        }
        k += 1;
    }
    assert(text@.subrange(at as int, at + marker@.len()) =~= marker@);
    true
}

/// The first position at which `marker` stands in `text`, if it stands
/// anywhere. An empty marker stands at position `0`.
pub fn find_marker(text: &Vec<char>, marker: &Vec<char>) -> (r: Option<usize>)
    ensures
        match r {
            Some(at) => first_at(text@, marker@, at as int),
            None => forall|k: int| !stands_at(text@, marker@, k),
        },
{
    if marker.len() > text.len() {
        return None;
    }
    let last: usize = text.len() - marker.len();
    let mut at: usize = 0;
    loop
        invariant
            last == text@.len() - marker@.len(),
            at <= last,
            forall|k: int| 0 <= k < at ==> !stands_at(text@, marker@, k),
        decreases last - at,
    {
        if matches_at(text, marker, at) {
            return Some(at);
        }
        if at == last {
            return None;
        }
        at += 1;
    }
}

/// What has been cut off `text` so far: nothing, or fields that, joined and
/// followed by a comma, are the first `done` characters.
spec fn cut_so_far(text: Seq<char>, fields: Seq<Seq<char>>, done: int) -> bool {
    &&& 0 <= done <= text.len()
    &&& forall|k: int| 0 <= k < fields.len() ==> !(#[trigger] fields[k]).contains(',')
    &&& if fields.len() == 0 {
        done == 0
    } else {
        joined(fields) + seq![','] == text.subrange(0, done)
    }
}

/// Cutting the next field off at a comma keeps what has been cut in order.
proof fn lemma_cut_field(text: Seq<char>, fields: Seq<Seq<char>>, done: int, comma: int)
    requires
        cut_so_far(text, fields, done),
        done <= comma < text.len(),
        text[comma] == ',',
        forall|j: int| done <= j < comma ==> text[j] != ',',
    ensures
        cut_so_far(text, fields.push(text.subrange(done, comma)), comma + 1),
{
    let field = text.subrange(done, comma);
    let more = fields.push(field);
    assert(more.drop_last() =~= fields);
    assert(more.last() == field);
    if field.contains(',') {
        let j = choose|j: int| 0 <= j < field.len() && field[j] == ',';
        assert(text[done + j] == ',');
    }
    assert forall|k: int| 0 <= k < more.len() implies !(#[trigger] more[k]).contains(',') by {
        if k < fields.len() {
            assert(more[k] == fields[k]);
        }
    }
    if fields.len() == 0 {
        assert(joined(more) + seq![','] =~= text.subrange(0, comma + 1));
    } else {
        assert(joined(more) == joined(fields) + seq![','] + field);
        assert(text.subrange(0, done) + field + seq![','] =~= text.subrange(0, comma + 1));
    }
}

/// The rest of the text after the last comma is the last field.
proof fn lemma_cut_last(text: Seq<char>, fields: Seq<Seq<char>>, done: int)
    requires
        cut_so_far(text, fields, done),
        forall|j: int| done <= j < text.len() ==> text[j] != ',',
    ensures
        is_split(text, fields.push(text.subrange(done, text.len() as int))),
{
    let field = text.subrange(done, text.len() as int);
    let all = fields.push(field);
    assert(all.drop_last() =~= fields);
    assert(all.last() == field);
    if field.contains(',') {
        let j = choose|j: int| 0 <= j < field.len() && field[j] == ',';
        assert(text[done + j] == ',');
    }
    assert forall|k: int| 0 <= k < all.len() implies !(#[trigger] all[k]).contains(',') by {
        if k < fields.len() {
            assert(all[k] == fields[k]);
        }
    }
    if fields.len() == 0 {
        assert(field =~= text);
    } else {
        assert(joined(all) == joined(fields) + seq![','] + field);
        assert(text.subrange(0, done) + field =~= text);
    }
}

/// Cuts the part of `text` from position `from` on at its commas. A text
/// without a comma is one field, and so is an empty text.
pub fn split_from(text: &str, from: usize) -> (fields: Vec<String>)
    requires
        from <= text@.len(),
    ensures
        is_split(text@.subrange(from as int, text@.len() as int), fields.deep_view()),
{
    let chars: Vec<char> = chars_of(text);
    let length: usize = chars.len();
    let ghost tail = text@.subrange(from as int, text@.len() as int);
    let mut fields: Vec<String> = Vec::new();
    let mut start: usize = from;
    let mut at: usize = from;
    while at < length
        invariant
            chars@ == text@,
            length == text@.len(),
            from <= start <= at <= length,
            tail == text@.subrange(from as int, text@.len() as int),
            cut_so_far(tail, fields.deep_view(), start - from),
            forall|j: int| start <= j < at ==> text@[j] != ',',
        decreases length - at,
    {
        if chars[at] == ',' {
            let field: String = text.substring_char(start, at).to_owned();
            proof {
                lemma_cut_field(tail, fields.deep_view(), start - from, at - from);
                assert(tail.subrange(start - from, at - from) =~= field@);
            }
            let ghost before = fields.deep_view();
            fields.push(field);
            assert(fields.deep_view() =~= before.push(field@));
            start = at + 1;
        }
        at += 1;
    }
    let field: String = text.substring_char(start, length).to_owned();
    proof {
        lemma_cut_last(tail, fields.deep_view(), start - from);
        assert(tail.subrange(start - from, tail.len() as int) =~= field@);
    }
    let ghost before = fields.deep_view();
    fields.push(field);
    assert(fields.deep_view() =~= before.push(field@));
    fields
}

/// The entries of the comma-separated list that follows the first `marker`
/// in `body`, or nothing where `body` holds no `marker`.
pub fn list_after(body: &str, marker: &str) -> (r: Option<Vec<String>>)
    ensures
        match r {
            Some(entries) => exists|at: int|
                first_at(body@, marker@, at) && is_split(
                    body@.subrange(at + marker@.len(), body@.len() as int),
                    #[trigger] entries.deep_view(),
                ),
            None => forall|k: int| !stands_at(body@, marker@, k),
        },
{
    let text: Vec<char> = chars_of(body);
    let sought: Vec<char> = chars_of(marker);
    match find_marker(&text, &sought) {
        Some(at) => {
            assert(text.len() == text@.len());
            let entries = split_from(body, at + sought.len());
            assert(first_at(body@, marker@, at as int));
            Some(entries)
        },
        None => None,
    }
}

/// A text is cut at its commas in one way only.
pub proof fn lemma_split_is_unique(text: Seq<char>, a: Seq<Seq<char>>, b: Seq<Seq<char>>)
    requires
        is_split(text, a),
        is_split(text, b),
    ensures
        a == b,
    decreases a.len(),
{
    if a.len() == 1 && b.len() == 1 {
        assert(a =~= b);
    } else if a.len() == 1 {
        let head = joined(b.drop_last());
        assert(text[head.len() as int] == ',');
        assert(a[0].contains(','));
    } else if b.len() == 1 {
        let head = joined(a.drop_last());
        assert(text[head.len() as int] == ',');
        assert(b[0].contains(','));
    } else {
        let front_a = joined(a.drop_last());
        let front_b = joined(b.drop_last());
        let last_a = a.last();
        let last_b = b.last();
        assert(text == front_a + seq![','] + last_a);
        assert(text == front_b + seq![','] + last_b);
        if front_a.len() < front_b.len() {
            let j = front_b.len() - front_a.len() - 1;
            assert(text[front_b.len() as int] == ',');
            assert(last_a[j] == text[front_b.len() as int]);
            assert(last_a.contains(','));
        } else if front_b.len() < front_a.len() {
            let j = front_a.len() - front_b.len() - 1;
            assert(text[front_a.len() as int] == ',');
            assert(last_b[j] == text[front_a.len() as int]);
            assert(last_b.contains(','));
        }
        assert(front_a =~= text.subrange(0, front_a.len() as int));
        assert(front_b =~= text.subrange(0, front_b.len() as int));
        assert(last_a =~= text.subrange(front_a.len() as int + 1, text.len() as int));
        assert(last_b =~= text.subrange(front_b.len() as int + 1, text.len() as int));
        assert forall|k: int| 0 <= k < a.drop_last().len() implies !(#[trigger] a.drop_last()[k]).contains(
            ',',
        ) by {
            assert(a.drop_last()[k] == a[k]);
        }
        assert forall|k: int| 0 <= k < b.drop_last().len() implies !(#[trigger] b.drop_last()[k]).contains(
            ',',
        ) by {
            assert(b.drop_last()[k] == b[k]);
        }
        lemma_split_is_unique(front_a, a.drop_last(), b.drop_last());
        assert(a =~= a.drop_last().push(last_a));
        assert(b =~= b.drop_last().push(last_b));
    }
}

} // verus!
