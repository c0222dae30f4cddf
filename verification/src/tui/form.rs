//! The add/edit host form: nine labelled text fields and a cursor.
use vstd::prelude::*;
use crate::config::model::{opt_text, Host, HostView};
use crate::text::{
    chars_of, decimal, decimal_chars, join, join_strings, lemma_split_step,
    parse_port, parse_u16, split_on, text_of, texts, trim, trim_chars,
};

verus! {

/// The editor's state.
pub struct FormState {
    /// The saved host being edited, or `None` when adding.
    pub editing_index: Option<usize>,
    /// `(label, value)` pairs, in the order of [`form_labels`].
    pub fields: Vec<(String, String)>,
    /// The field that receives typing.
    pub cursor: usize,
}

/// The form seen as plain values.
pub struct FormView {
    pub editing_index: Option<usize>,
    pub fields: Seq<(Seq<char>, Seq<char>)>,
    pub cursor: usize,
}

/// The texts of a list of label/value pairs.
pub open spec fn pairs_view(v: Seq<(String, String)>) -> Seq<(Seq<char>, Seq<char>)> {
    v.map_values(|p: (String, String)| (p.0@, p.1@))
}

impl View for FormState {
    type V = FormView;

    open spec fn view(&self) -> FormView {
        FormView {
            editing_index: self.editing_index,
            fields: pairs_view(self.fields@),
            cursor: self.cursor,
        }
    }
}

/// The field labels: name, host, user, port, key, group, tags, jump, note.
pub open spec fn form_labels() -> Seq<Seq<char>> {
    seq![
        seq!['n', 'a', 'm', 'e'],
        seq!['h', 'o', 's', 't'],
        seq!['u', 's', 'e', 'r'],
        seq!['p', 'o', 'r', 't'],
        seq!['k', 'e', 'y'],
        seq!['g', 'r', 'o', 'u', 'p'],
        seq!['t', 'a', 'g', 's'],
        seq!['j', 'u', 'm', 'p'],
        seq!['n', 'o', 't', 'e'],
    ]
}

/// The text of an optional value, empty for none.
pub open spec fn or_empty(o: Option<Seq<char>>) -> Seq<char> {
    match o {
        Some(s) => s,
        None => Seq::empty(),
    }
}

/// The values that the form shows for a host: the port in decimal, the tags
/// joined by commas, absent options as empty text.
pub open spec fn form_values(h: HostView) -> Seq<Seq<char>> {
    seq![
        h.name,
        h.host,
        h.user,
        decimal(h.port as nat),
        or_empty(h.key),
        or_empty(h.group),
        join(h.tags, seq![',']),
        or_empty(h.jump),
        or_empty(h.note),
    ]
}

/// The host that an empty form stands for: no name or address, user `root`,
/// port 22.
pub open spec fn blank_host() -> HostView {
    HostView {
        name: Seq::empty(),
        host: Seq::empty(),
        user: seq!['r', 'o', 'o', 't'],
        port: 22,
        key: None,
        group: None,
        tags: Seq::empty(),
        jump: None,
        note: None,
        extra: Seq::empty(),
        last_used: None,
        use_count: 0,
    }
}

/// The fields of a form opened on `h`.
pub open spec fn form_fields(h: HostView) -> Seq<(Seq<char>, Seq<char>)> {
    Seq::new(9, |i: int| (form_labels()[i], form_values(h)[i]))
}

/// `Some(text)` for non-empty text, else `None`.
pub open spec fn non_empty(s: Seq<char>) -> Option<Seq<char>> {
    if s.len() == 0 {
        None
    } else {
        Some(s)
    }
}

/// The pieces of a comma-separated tag list, trimmed, empty ones dropped.
pub open spec fn clean_tags(parts: Seq<Seq<char>>) -> Seq<Seq<char>>
    decreases parts.len(),
{
    if parts.len() == 0 {
        Seq::empty()
    } else {
        let p = clean_tags(parts.drop_last());
        let t = trim(parts.last());
        if t.len() == 0 {
            p
        } else {
            p.push(t)
        }
    }
}

/// The tags typed into the tags field.
pub open spec fn parse_tags(s: Seq<char>) -> Seq<Seq<char>> {
    clean_tags(split_on(s, ','))
}

/// The host a form describes, or `None` when name or host is empty. An empty
/// user means `root`; a port that does not parse means 22; empty optional
/// fields mean none. The host has no extra arguments and no usage record.
pub open spec fn form_host(values: Seq<Seq<char>>) -> Option<HostView> {
    if values[0].len() == 0 || values[1].len() == 0 {
        None
    } else {
        Some(
            HostView {
                name: values[0],
                host: values[1],
                user: if values[2].len() == 0 {
                    seq!['r', 'o', 'o', 't']
                } else {
                    values[2]
                },
                port: match parse_u16(values[3]) {
                    Some(p) => p,
                    None => 22,
                },
                key: non_empty(values[4]),
                group: non_empty(values[5]),
                tags: parse_tags(values[6]),
                jump: non_empty(values[7]),
                note: non_empty(values[8]),
                extra: Seq::empty(),
                last_used: None,
                use_count: 0,
            },
        )
    }
}

/// The values of a form's fields.
pub open spec fn field_values(fields: Seq<(Seq<char>, Seq<char>)>) -> Seq<Seq<char>> {
    fields.map_values(|p: (Seq<char>, Seq<char>)| p.1)
}

/// A pair of strings from characters.
fn pair_of(label: &[char], value: &[char]) -> (res: (String, String))
    ensures
        res.0@ == label@,
        res.1@ == value@,
{
    (text_of(label), text_of(value))
}

/// The text of an optional string, empty for none.
fn opt_chars(o: &Option<String>) -> (res: Vec<char>)
    ensures
        res@ == or_empty(opt_text(*o)),
{
    match o {
        Some(s) => chars_of(s.as_str()),
        None => Vec::new(),
    }
}

/// The values shown for a host (see [`form_values`]).
fn values_of(h: &Host) -> (res: Vec<Vec<char>>)
    ensures
        res@.len() == 9,
        forall|i: int| 0 <= i < 9 ==> #[trigger] res@[i]@ == form_values(h@)[i],
{
    let mut res: Vec<Vec<char>> = Vec::new();
    res.push(chars_of(h.name.as_str()));
    res.push(chars_of(h.host.as_str()));
    res.push(chars_of(h.user.as_str()));
    res.push(decimal_chars(h.port as u64));
    res.push(opt_chars(&h.key));
    res.push(opt_chars(&h.group));
    let sep = vec![','];
    assert(sep@ == seq![',']);
    res.push(join_strings(&h.tags, &sep));
    res.push(opt_chars(&h.jump));
    res.push(opt_chars(&h.note));
    res
}

/// The values of an empty form (see [`blank_host`]).
fn blank_values() -> (res: Vec<Vec<char>>)
    ensures
        res@.len() == 9,
        forall|i: int| 0 <= i < 9 ==> #[trigger] res@[i]@ == form_values(blank_host())[i],
{
    let mut res: Vec<Vec<char>> = Vec::new();
    res.push(Vec::new());
    res.push(Vec::new());
    res.push(vec!['r', 'o', 'o', 't']);
    let two = decimal_chars(22);
    res.push(two);
    res.push(Vec::new());
    res.push(Vec::new());
    assert(join(Seq::<Seq<char>>::empty(), seq![',']) == Seq::<char>::empty());
    res.push(Vec::new());
    res.push(Vec::new());
    res.push(Vec::new());
    res
}

/// The labels as character vectors.
fn label_chars() -> (res: Vec<Vec<char>>)
    ensures
        res@.len() == 9,
        forall|i: int| 0 <= i < 9 ==> #[trigger] res@[i]@ == form_labels()[i],
{
    let mut res: Vec<Vec<char>> = Vec::new();
    res.push(vec!['n', 'a', 'm', 'e']);
    res.push(vec!['h', 'o', 's', 't']);
    res.push(vec!['u', 's', 'e', 'r']);
    res.push(vec!['p', 'o', 'r', 't']);
    res.push(vec!['k', 'e', 'y']);
    res.push(vec!['g', 'r', 'o', 'u', 'p']);
    res.push(vec!['t', 'a', 'g', 's']);
    res.push(vec!['j', 'u', 'm', 'p']);
    res.push(vec!['n', 'o', 't', 'e']);
    res
}

/// `Some` string for non-empty text.
fn non_empty_text(s: &[char]) -> (res: Option<String>)
    ensures
        opt_text(res) == non_empty(s@),
{
    if s.len() == 0 {
        None
    } else {
        Some(text_of(s))
    }
}

/// The tags of a comma-separated list (see [`parse_tags`]).
pub fn tags_from(s: &[char]) -> (res: Vec<String>)
    ensures
        texts(res@) == parse_tags(s@),
{
    let n = s.len();
    let mut out: Vec<String> = Vec::new();
    let mut piece: Vec<char> = Vec::new();
    proof {
        assert(s@.take(0) == Seq::<char>::empty());
        assert(split_on(s@.take(0), ',') == seq![Seq::<char>::empty()]);
        assert(split_on(s@.take(0), ',').drop_last() == Seq::<Seq<char>>::empty());
        assert(texts(out@) == Seq::<Seq<char>>::empty());
    }
    for i in 0..n
        invariant
            n == s@.len(),
            split_on(s@.take(i as int), ',').len() >= 1,
            texts(out@) == clean_tags(split_on(s@.take(i as int), ',').drop_last()),
            piece@ == split_on(s@.take(i as int), ',').last(),
    {
        proof {
            lemma_split_step(s@, i as int, ',');
        }
        let ghost p = split_on(s@.take(i as int), ',');
        if s[i] == ',' {
            let t = trim_chars(&piece);
            let ghost prev = texts(out@);
            if t.len() != 0 {
                out.push(text_of(&t));
                assert(texts(out@) == prev.push(t@));
            }
            piece = Vec::new();
            proof {
                assert(p.drop_last().push(p.last()) == p);
                assert(split_on(s@.take(i + 1), ',').drop_last() == p);
            }
        } else {
            piece.push(s[i]);
            proof {
                assert(split_on(s@.take(i + 1), ',').drop_last() == p.drop_last());
            }
        }
    }
    let ghost all = split_on(s@.take(n as int), ',');
    assert(s@.take(n as int) == s@);
    let t = trim_chars(&piece);
    let ghost prev = texts(out@);
    if t.len() != 0 {
        out.push(text_of(&t));
        assert(texts(out@) == prev.push(t@));
    }
    proof {
        assert(all.drop_last().push(all.last()) == all);
    }
    out
}

impl FormState {
    /// A form showing `h` (or the blank host when adding), cursor on the
    /// first field, not bound to a saved host.
    pub fn new(h: Option<&Host>) -> (res: FormState)
        ensures
            res@.editing_index is None,
            res@.cursor == 0,
            res@.fields == form_fields(
                match h {
                    Some(h) => h@,
                    None => blank_host(),
                },
            ),
    {
        let values = match h {
            Some(h) => values_of(h),
            None => blank_values(),
        };
        let ghost src = match h {
            Some(h) => h@,
            None => blank_host(),
        };
        let labels = label_chars();
        let mut fields: Vec<(String, String)> = Vec::new();
        for i in 0..9
            invariant
                values@.len() == 9,
                labels@.len() == 9,
                forall|k: int| 0 <= k < 9 ==> #[trigger] values@[k]@ == form_values(src)[k],
                forall|k: int| 0 <= k < 9 ==> #[trigger] labels@[k]@ == form_labels()[k],
                pairs_view(fields@) == form_fields(src).take(i as int),
        {
            let p = pair_of(&labels[i], &values[i]);
            let ghost prev = pairs_view(fields@);
            let ghost pv = (p.0@, p.1@);
            fields.push(p);
            proof {
                assert(pairs_view(fields@) == prev.push(pv));
                assert(form_fields(src)[i as int] == pv);
                assert(form_fields(src).take(i + 1) == form_fields(src).take(i as int).push(pv));
            }
        }
        assert(form_fields(src).take(9) == form_fields(src));
        FormState { editing_index: None, fields, cursor: 0 }
    }

    /// The host the form describes (see [`form_host`]).
    pub fn to_host(&self) -> (res: Option<Host>)
        requires
            self.fields@.len() >= 9,
        ensures
            match res {
                Some(h) => form_host(field_values(self@.fields)) == Some(h@),
                None => form_host(field_values(self@.fields)) is None,
            },
    {
        let ghost vals = field_values(self@.fields);
        assert(forall|i: int| 0 <= i < 9 ==> #[trigger] vals[i] == self.fields@[i].1@);
        let name = chars_of(self.fields[0].1.as_str());
        let host = chars_of(self.fields[1].1.as_str());
        if name.len() == 0 || host.len() == 0 {
            return None;
        }
        let port_text = chars_of(self.fields[3].1.as_str());
        let port = match parse_port(&port_text) {
            Some(p) => p,
            None => 22,
        };
        let key = non_empty_text(&chars_of(self.fields[4].1.as_str()));
        let group = non_empty_text(&chars_of(self.fields[5].1.as_str()));
        let tags = tags_from(&chars_of(self.fields[6].1.as_str()));
        let jump = non_empty_text(&chars_of(self.fields[7].1.as_str()));
        let note = non_empty_text(&chars_of(self.fields[8].1.as_str()));
        let user_text = chars_of(self.fields[2].1.as_str());
        let user = if user_text.len() == 0 {
            let r = vec!['r', 'o', 'o', 't'];
            text_of(&r)
        } else {
            text_of(&user_text)
        };
        let extra: Vec<String> = Vec::new();
        assert(texts(extra@) == Seq::<Seq<char>>::empty());
        Some(
            Host {
                name: text_of(&name),
                host: text_of(&host),
                user,
                port,
                key,
                group,
                tags,
                jump,
                note,
                extra,
                last_used: None,
                use_count: 0,
            },
        )
    }
}

} // verus!

verus! {

/// A tag that survives being typed into the tags field: non-empty, no comma,
/// no whitespace at either end.
pub open spec fn tag_ok(t: Seq<char>) -> bool {
    &&& t.len() > 0
    &&& !t.contains(',')
    &&& !crate::text::is_white(t[0])
    &&& !crate::text::is_white(t.last())
}

/// A host the form shows faithfully: name, host and user are set, optional
/// texts are not empty, and every tag is [`tag_ok`].
pub open spec fn form_faithful(h: HostView) -> bool {
    &&& h.name.len() > 0
    &&& h.host.len() > 0
    &&& h.user.len() > 0
    &&& h.key matches Some(k) ==> k.len() > 0
    &&& h.group matches Some(g) ==> g.len() > 0
    &&& h.jump matches Some(j) ==> j.len() > 0
    &&& h.note matches Some(n) ==> n.len() > 0
    &&& forall|i: int| 0 <= i < h.tags.len() ==> tag_ok(#[trigger] h.tags[i])
}

/// Tags that need no cleaning are kept as they are.
proof fn lemma_clean_tags_id(list: Seq<Seq<char>>)
    requires
        forall|i: int| 0 <= i < list.len() ==> tag_ok(#[trigger] list[i]),
    ensures
        clean_tags(list) == list,
    decreases list.len(),
{
    if list.len() > 0 {
        let init = list.drop_last();
        assert forall|i: int| 0 <= i < init.len() implies tag_ok(#[trigger] init[i]) by {
            assert(init[i] == list[i]);
        }
        lemma_clean_tags_id(init);
        assert(tag_ok(list[list.len() - 1]));
        crate::text::lemma_trim_id(list.last());
        assert(init.push(list.last()) == list);
    }
}

/// The tags of a host read back from their comma-joined text.
proof fn lemma_tags_round_trip(tags: Seq<Seq<char>>)
    requires
        forall|i: int| 0 <= i < tags.len() ==> tag_ok(#[trigger] tags[i]),
    ensures
        parse_tags(join(tags, seq![','])) == tags,
{
    if tags.len() == 0 {
        let e = Seq::<char>::empty();
        assert(join(tags, seq![',']) == e);
        assert(split_on(e, ',') == seq![e]);
        crate::text::lemma_trim_id(e);
        assert(seq![e].drop_last() == Seq::<Seq<char>>::empty());
        assert(seq![e].last() == e);
        assert(clean_tags(Seq::<Seq<char>>::empty()) == Seq::<Seq<char>>::empty());
        assert(trim(e).len() == 0);
        assert(clean_tags(seq![e]) == Seq::<Seq<char>>::empty());
    } else {
        assert forall|i: int| 0 <= i < tags.len() implies !(#[trigger] tags[i]).contains(',') by {
            assert(tag_ok(tags[i]));
        }
        crate::text::lemma_split_join(tags, ',');
        lemma_clean_tags_id(tags);
    }
}

/// Opening the form on a host and saving it unchanged gives the host back,
/// without its extra arguments and usage record (which the form does not
/// carry).
pub proof fn law_form_round_trip(h: HostView)
    requires
        form_faithful(h),
    ensures
        form_host(field_values(form_fields(h))) == Some(
            HostView { extra: Seq::empty(), last_used: None, use_count: 0, ..h },
        ),
{
    let vals = field_values(form_fields(h));
    assert(vals.len() == 9);
    assert forall|i: int| 0 <= i < 9 implies #[trigger] vals[i] == form_values(h)[i] by {}
    crate::text::law_port_round_trip(h.port);
    lemma_tags_round_trip(h.tags);
    assert(vals[6] == join(h.tags, seq![',']));
}

} // verus!
