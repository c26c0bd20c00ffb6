//! The container loader: parsers for the workbook's parts — relationship
//! map, sheet list, style classifications and the shared-string table —
//! each a fold over the part's XML events, and the book that holds the
//! resulting tables.
use vstd::prelude::*;
use vstd::string::StringExecFns;

use crate::text::{parse_u32, parse_usize, str_eq, contains1, contains2, has_char, has_sub2,
    all_digits, digits_val};
use crate::xml::{find_attr, spec_attr, XmlEvent};
use crate::XlsxError;

verus! {

/// The classification of a numeric format: a date.
pub const FMT_DATE: u8 = 0;

/// The classification of a numeric format: a time.
pub const FMT_TIME: u8 = 1;

/// The classification of a numeric format: a date with a time.
pub const FMT_DATETIME: u8 = 2;

/// The classification of a numeric format: anything else.
pub const FMT_DEFAULT: u8 = 255;

/// The built-in numeric formats that denote dates, times and datetimes,
/// keyed by format id.
pub open spec fn builtin_fmts() -> Seq<(u32, u8)> {
    seq![
        (14u32, 0u8),
        (15u32, 0u8),
        (16u32, 0u8),
        (17u32, 0u8),
        (27u32, 0u8),
        (28u32, 0u8),
        (29u32, 0u8),
        (30u32, 0u8),
        (31u32, 0u8),
        (34u32, 0u8),
        (35u32, 0u8),
        (36u32, 0u8),
        (50u32, 0u8),
        (51u32, 0u8),
        (52u32, 0u8),
        (53u32, 0u8),
        (54u32, 0u8),
        (55u32, 0u8),
        (56u32, 0u8),
        (57u32, 0u8),
        (58u32, 0u8),
        (18u32, 1u8),
        (19u32, 1u8),
        (20u32, 1u8),
        (21u32, 1u8),
        (32u32, 1u8),
        (33u32, 1u8),
        (45u32, 1u8),
        (46u32, 1u8),
        (47u32, 1u8),
        (22u32, 2u8),
    ]
}

/// Build the built-in format classification table.
pub fn builtin_datetime_fmts() -> (r: Vec<(u32, u8)>)
    ensures
        r@ == builtin_fmts(),
{
    let mut v: Vec<(u32, u8)> = Vec::new();
    let mut id: u32 = 14;
    while id < 18
        invariant
            14 <= id <= 18,
            v@ == builtin_fmts().take(id - 14),
        decreases 18 - id,
    {
        v.push((id, FMT_DATE));
        proof {
            assert(v@ =~= builtin_fmts().take(id - 13));
        }
        id += 1;
    }
    let mut id2: u32 = 27;
    while id2 < 32
        invariant
            27 <= id2 <= 32,
            v@ == builtin_fmts().take(id2 - 23),
        decreases 32 - id2,
    {
        v.push((id2, FMT_DATE));
        proof {
            assert(v@ =~= builtin_fmts().take(id2 - 22));
        }
        id2 += 1;
    }
    let mut id3: u32 = 34;
    while id3 < 37
        invariant
            34 <= id3 <= 37,
            v@ == builtin_fmts().take(id3 - 25),
        decreases 37 - id3,
    {
        v.push((id3, FMT_DATE));
        proof {
            assert(v@ =~= builtin_fmts().take(id3 - 24));
        }
        id3 += 1;
    }
    let mut id4: u32 = 50;
    while id4 < 59
        invariant
            50 <= id4 <= 59,
            v@ == builtin_fmts().take(id4 - 38),
        decreases 59 - id4,
    {
        v.push((id4, FMT_DATE));
        proof {
            assert(v@ =~= builtin_fmts().take(id4 - 37));
        }
        id4 += 1;
    }
    let mut id5: u32 = 18;
    while id5 < 22
        invariant
            18 <= id5 <= 22,
            v@ == builtin_fmts().take(id5 + 3),
        decreases 22 - id5,
    {
        v.push((id5, FMT_TIME));
        proof {
            assert(v@ =~= builtin_fmts().take(id5 + 4));
        }
        id5 += 1;
    }
    let mut id6: u32 = 32;
    while id6 < 34
        invariant
            32 <= id6 <= 34,
            v@ == builtin_fmts().take(id6 - 7),
        decreases 34 - id6,
    {
        v.push((id6, FMT_TIME));
        proof {
            assert(v@ =~= builtin_fmts().take(id6 - 6));
        }
        id6 += 1;
    }
    let mut id7: u32 = 45;
    while id7 < 48
        invariant
            45 <= id7 <= 48,
            v@ == builtin_fmts().take(id7 - 18),
        decreases 48 - id7,
    {
        v.push((id7, FMT_TIME));
        proof {
            assert(v@ =~= builtin_fmts().take(id7 - 17));
        }
        id7 += 1;
    }
    v.push((22, FMT_DATETIME));
    proof {
        assert(v@ =~= builtin_fmts());
    }
    v
}

/// The value for `k` in an association list; the latest entry wins.
pub open spec fn assoc_u32<V>(m: Seq<(u32, V)>, k: u32) -> Option<V>
    decreases m.len(),
{
    if m.len() == 0 {
        None
    } else if m.last().0 == k {
        Some(m.last().1)
    } else {
        assoc_u32(m.drop_last(), k)
    }
}

/// Look `k` up in a `(u32, u32)` association list; the latest entry wins.
pub fn assoc_get_u32(m: &Vec<(u32, u32)>, k: u32) -> (r: Option<u32>)
    ensures
        r == assoc_u32(m@, k),
{
    let mut i: usize = m.len();
    proof {
        assert(m@.take(m@.len() as int) =~= m@);
    }
    while i > 0
        invariant
            i <= m@.len(),
            assoc_u32(m@, k) == assoc_u32(m@.take(i as int), k),
        decreases i,
    {
        proof {
            assert(m@.take(i as int).last() == m@[i - 1]);
            assert(m@.take(i as int).drop_last() =~= m@.take(i - 1));
        }
        if m[i - 1].0 == k {
            return Some(m[i - 1].1);
        }
        i -= 1;
    }
    None
}

/// Look `k` up in a `(u32, u8)` association list; the latest entry wins.
pub fn assoc_get_u8(m: &Vec<(u32, u8)>, k: u32) -> (r: Option<u8>)
    ensures
        r == assoc_u32(m@, k),
{
    let mut i: usize = m.len();
    proof {
        assert(m@.take(m@.len() as int) =~= m@);
    }
    while i > 0
        invariant
            i <= m@.len(),
            assoc_u32(m@, k) == assoc_u32(m@.take(i as int), k),
        decreases i,
    {
        proof {
            assert(m@.take(i as int).last() == m@[i - 1]);
            assert(m@.take(i as int).drop_last() =~= m@.take(i - 1));
        }
        if m[i - 1].0 == k {
            return Some(m[i - 1].1);
        }
        i -= 1;
    }
    None
}

/// The value for `k` in a string-keyed association list; the latest entry
/// wins.
pub open spec fn assoc_str(m: Seq<(Seq<char>, Seq<char>)>, k: Seq<char>) -> Option<Seq<char>>
    decreases m.len(),
{
    if m.len() == 0 {
        None
    } else if m.last().0 == k {
        Some(m.last().1)
    } else {
        assoc_str(m.drop_last(), k)
    }
}

/// Look `k` up in a string-keyed association list; the latest entry wins.
pub fn assoc_get_str<'a>(m: &'a Vec<(String, String)>, k: &str) -> (r: Option<&'a String>)
    ensures
        match r {
            Some(v) => assoc_str(m.deep_view(), k@) == Some(v@),
            None => assoc_str(m.deep_view(), k@) is None,
        },
{
    let mut i: usize = m.len();
    proof {
        assert(m.deep_view().take(m@.len() as int) =~= m.deep_view());
    }
    while i > 0
        invariant
            i <= m@.len(),
            m.deep_view().len() == m@.len(),
            assoc_str(m.deep_view(), k@) == assoc_str(m.deep_view().take(i as int), k@),
        decreases i,
    {
        proof {
            assert(m.deep_view().take(i as int).last() == m.deep_view()[i - 1]);
            assert(m.deep_view().take(i as int).drop_last() =~= m.deep_view().take(i - 1));
            assert(m.deep_view()[i - 1].0 == m@[i - 1].0@);
            assert(m.deep_view()[i - 1].1 == m@[i - 1].1@);
        }
        if str_eq(m[i - 1].0.as_str(), k) {
            return Some(&m[i - 1].1);
        }
        i -= 1;
    }
    None
}

// ------------------------------------------------------- relationships

/// The relationship map read from the remaining events, given the pairs
/// already collected: every `Relationship` element contributes its `Id`
/// and `Target`; a missing attribute is an error; `Eof` ends the part.
pub open spec fn rels_spec(evs: Seq<XmlEvent>, acc: Seq<(Seq<char>, Seq<char>)>) -> Result<
    Seq<(Seq<char>, Seq<char>)>,
    XlsxError,
>
    decreases evs.len(),
{
    if evs.len() == 0 {
        Ok(acc)
    } else {
        match evs[0] {
            XmlEvent::Start { name, attrs } => {
                if name@ == "Relationship"@ {
                    match (spec_attr(attrs@, "Id"@), spec_attr(attrs@, "Target"@)) {
                        (Some(id), Some(tg)) => rels_spec(evs.skip(1), acc.push((id, tg))),
                        _ => Err(XlsxError::MissingAttribute),
                    }
                } else {
                    rels_spec(evs.skip(1), acc)
                }
            },
            XmlEvent::Empty { name, attrs } => {
                if name@ == "Relationship"@ {
                    match (spec_attr(attrs@, "Id"@), spec_attr(attrs@, "Target"@)) {
                        (Some(id), Some(tg)) => rels_spec(evs.skip(1), acc.push((id, tg))),
                        _ => Err(XlsxError::MissingAttribute),
                    }
                } else {
                    rels_spec(evs.skip(1), acc)
                }
            },
            XmlEvent::Eof => Ok(acc),
            _ => rels_spec(evs.skip(1), acc),
        }
    }
}

/// Read the workbook relationship part: a map from relationship id to
/// target path.
pub fn parse_relationships(events: &Vec<XmlEvent>) -> (r: Result<
    Vec<(String, String)>,
    XlsxError,
>)
    ensures
        match r {
            Ok(m) => rels_spec(events@, Seq::empty()) == Ok::<_, XlsxError>(m.deep_view()),
            Err(e) => rels_spec(events@, Seq::empty()) == Err::<Seq<(Seq<char>, Seq<char>)>, _>(
                e,
            ),
        },
{
    let n = events.len();
    let mut out: Vec<(String, String)> = Vec::new();
    let mut i: usize = 0;
    proof {
        assert(events@.skip(0) =~= events@);
        assert(out.deep_view() =~= Seq::<(Seq<char>, Seq<char>)>::empty());
    }
    while i < n
        invariant
            i <= n == events@.len(),
            rels_spec(events@, Seq::empty()) == rels_spec(
                events@.skip(i as int),
                out.deep_view(),
            ),
        decreases n - i,
    {
        proof {
            assert(events@.skip(i as int)[0] == events@[i as int]);
            assert(events@.skip(i as int).skip(1) =~= events@.skip(i + 1));
        }
        let ghost odv = out.deep_view();
        match &events[i] {
            XmlEvent::Start { name, attrs } => {
                if str_eq(name.as_str(), "Relationship") {
                    let id = match find_attr(attrs, "Id") {
                        Some(v) => v.clone(),
                        None => {
                            return Err(XlsxError::MissingAttribute);
                        },
                    };
                    let tg = match find_attr(attrs, "Target") {
                        Some(v) => v.clone(),
                        None => {
                            return Err(XlsxError::MissingAttribute);
                        },
                    };
                    out.push((id, tg));
                    proof {
                        assert(out.deep_view() =~= odv.push(
                            (out@.last().0@, out@.last().1@),
                        ));
                    }
                }
            },
            XmlEvent::Empty { name, attrs } => {
                if str_eq(name.as_str(), "Relationship") {
                    let id = match find_attr(attrs, "Id") {
                        Some(v) => v.clone(),
                        None => {
                            return Err(XlsxError::MissingAttribute);
                        },
                    };
                    let tg = match find_attr(attrs, "Target") {
                        Some(v) => v.clone(),
                        None => {
                            return Err(XlsxError::MissingAttribute);
                        },
                    };
                    out.push((id, tg));
                    proof {
                        assert(out.deep_view() =~= odv.push(
                            (out@.last().0@, out@.last().1@),
                        ));
                    }
                }
            },
            XmlEvent::Eof => {
                return Ok(out);
            },
            _ => {},
        }
        i += 1;
    }
    proof {
        assert(events@.skip(n as int) =~= Seq::<XmlEvent>::empty());
    }
    Ok(out)
}

// ------------------------------------------------------------ workbook

/// The text with its leading slashes removed.
pub open spec fn trim_slashes(t: Seq<char>) -> Seq<char>
    decreases t.len(),
{
    if t.len() > 0 && t[0] == '/' {
        trim_slashes(t.skip(1))
    } else {
        t
    }
}

/// A relationship target resolved to a part path: an absolute target
/// loses its leading slashes, a relative one is rooted under `xl/`.
pub open spec fn sheet_path(target: Seq<char>) -> Seq<char> {
    if target.len() > 0 && target[0] == '/' {
        trim_slashes(target)
    } else {
        "xl/"@ + target
    }
}

/// Resolve a relationship target to a part path.
fn resolve_sheet_path(target: &String) -> (r: String)
    ensures
        r@ == sheet_path(target@),
{
    let n = target.as_str().unicode_len();
    if n > 0 && target.as_str().get_char(0) == '/' {
        let mut i: usize = 0;
        proof {
            assert(target@.skip(0) =~= target@);
        }
        while i < n && target.as_str().get_char(i) == '/'
            invariant
                i <= n == target@.len(),
                trim_slashes(target@) == trim_slashes(target@.skip(i as int)),
            decreases n - i,
        {
            proof {
                assert(target@.skip(i as int)[0] == target@[i as int]);
                assert(target@.skip(i as int).skip(1) =~= target@.skip(i + 1));
            }
            i += 1;
        }
        proof {
            if i < n {
                assert(target@.skip(i as int)[0] == target@[i as int]);
                assert(trim_slashes(target@.skip(i as int)) == target@.skip(i as int));
            }
        }
        if i == n {
            proof {
                assert(target@.skip(n as int) =~= Seq::<char>::empty());
            }
            return String::new();
        }
        let t = target.as_str().substring_char(i, n);
        proof {
            assert(t@ =~= target@.skip(i as int));
        }
        t.to_owned()
    } else {
        let mut p = String::from_str("xl/");
        p.append(target.as_str());
        p
    }
}

/// The sheet tables read from the remaining events, given those already
/// collected: every `sheet` element contributes its name and resolved
/// part path, and its name to the visible or hidden list per its `state`
/// attribute.  An unresolved relationship id is an error.
pub open spec fn workbook_spec(
    evs: Seq<XmlEvent>,
    refs: Seq<(Seq<char>, Seq<char>)>,
    sheets: Seq<(Seq<char>, Seq<char>)>,
    vis: Seq<Seq<char>>,
    hid: Seq<Seq<char>>,
) -> Result<(Seq<(Seq<char>, Seq<char>)>, Seq<Seq<char>>, Seq<Seq<char>>), XlsxError>
    decreases evs.len(),
{
    if evs.len() == 0 {
        Ok((sheets, vis, hid))
    } else {
        match evs[0] {
            XmlEvent::Start { name, attrs } => {
                if name@ == "sheet"@ {
                    workbook_sheet_step(evs, refs, sheets, vis, hid, attrs@)
                } else {
                    workbook_spec(evs.skip(1), refs, sheets, vis, hid)
                }
            },
            XmlEvent::Empty { name, attrs } => {
                if name@ == "sheet"@ {
                    workbook_sheet_step(evs, refs, sheets, vis, hid, attrs@)
                } else {
                    workbook_spec(evs.skip(1), refs, sheets, vis, hid)
                }
            },
            XmlEvent::Eof => Ok((sheets, vis, hid)),
            _ => workbook_spec(evs.skip(1), refs, sheets, vis, hid),
        }
    }
}

/// One `sheet` element's contribution to the workbook tables.
pub open spec fn workbook_sheet_step(
    evs: Seq<XmlEvent>,
    refs: Seq<(Seq<char>, Seq<char>)>,
    sheets: Seq<(Seq<char>, Seq<char>)>,
    vis: Seq<Seq<char>>,
    hid: Seq<Seq<char>>,
    attrs: Seq<(String, String)>,
) -> Result<(Seq<(Seq<char>, Seq<char>)>, Seq<Seq<char>>, Seq<Seq<char>>), XlsxError>
    decreases evs.len(), 0nat,
{
    match (spec_attr(attrs, "name"@), spec_attr(attrs, "r:id"@)) {
        (Some(nm), Some(rid)) => match assoc_str(refs, rid) {
            Some(tg) => {
                let path = sheet_path(tg);
                let hidden = spec_attr(attrs, "state"@) == Some("hidden"@);
                if evs.len() == 0 {
                    Err(XlsxError::MalformedXml)
                } else if hidden {
                    workbook_spec(evs.skip(1), refs, sheets.push((nm, path)), vis, hid.push(nm))
                } else {
                    workbook_spec(evs.skip(1), refs, sheets.push((nm, path)), vis.push(nm), hid)
                }
            },
            None => Err(XlsxError::UnknownRelationship),
        },
        _ => Err(XlsxError::MissingAttribute),
    }
}

/// Read the workbook part: the sheet-name to part-path map and the
/// visible and hidden sheet-name lists.
pub fn parse_workbook(events: &Vec<XmlEvent>, refs: &Vec<(String, String)>) -> (r: Result<
    (Vec<(String, String)>, Vec<String>, Vec<String>),
    XlsxError,
>)
    ensures
        match r {
            Ok(t) => workbook_spec(
                events@,
                refs.deep_view(),
                Seq::empty(),
                Seq::empty(),
                Seq::empty(),
            ) == Ok::<_, XlsxError>((t.0.deep_view(), t.1.deep_view(), t.2.deep_view())),
            Err(e) => workbook_spec(
                events@,
                refs.deep_view(),
                Seq::empty(),
                Seq::empty(),
                Seq::empty(),
            ) matches Err(e2) && e2 == e,
        },
{
    let n = events.len();
    let mut sheets: Vec<(String, String)> = Vec::new();
    let mut vis: Vec<String> = Vec::new();
    let mut hid: Vec<String> = Vec::new();
    let mut i: usize = 0;
    proof {
        assert(events@.skip(0) =~= events@);
        assert(sheets.deep_view() =~= Seq::<(Seq<char>, Seq<char>)>::empty());
        assert(vis.deep_view() =~= Seq::<Seq<char>>::empty());
        assert(hid.deep_view() =~= Seq::<Seq<char>>::empty());
    }
    while i < n
        invariant
            i <= n == events@.len(),
            workbook_spec(
                events@,
                refs.deep_view(),
                Seq::empty(),
                Seq::empty(),
                Seq::empty(),
            ) == workbook_spec(
                events@.skip(i as int),
                refs.deep_view(),
                sheets.deep_view(),
                vis.deep_view(),
                hid.deep_view(),
            ),
        decreases n - i,
    {
        proof {
            assert(events@.skip(i as int)[0] == events@[i as int]);
            assert(events@.skip(i as int).skip(1) =~= events@.skip(i + 1));
        }
        let ghost evs = events@.skip(i as int);
        let ghost osheets = sheets.deep_view();
        let ghost ovis = vis.deep_view();
        let ghost ohid = hid.deep_view();
        let ghost rdv = refs.deep_view();
        match &events[i] {
            XmlEvent::Start { name, attrs } => {
                if str_eq(name.as_str(), "sheet") {
                    proof {
                        assert(workbook_spec(evs, rdv, osheets, ovis, ohid)
                            == workbook_sheet_step(evs, rdv, osheets, ovis, ohid, attrs@));
                    }
                    match apply_sheet(attrs, refs, &mut sheets, &mut vis, &mut hid) {
                        Ok(u) => {
                            proof {
                                assert(workbook_spec(evs, rdv, osheets, ovis, ohid)
                                    == workbook_spec(
                                    evs.skip(1),
                                    rdv,
                                    sheets.deep_view(),
                                    vis.deep_view(),
                                    hid.deep_view(),
                                ));
                            }
                        },
                        Err(e) => {
                            return Err(e);
                        },
                    }
                }
            },
            XmlEvent::Empty { name, attrs } => {
                if str_eq(name.as_str(), "sheet") {
                    proof {
                        assert(workbook_spec(evs, rdv, osheets, ovis, ohid)
                            == workbook_sheet_step(evs, rdv, osheets, ovis, ohid, attrs@));
                    }
                    match apply_sheet(attrs, refs, &mut sheets, &mut vis, &mut hid) {
                        Ok(u) => {
                            proof {
                                assert(workbook_spec(evs, rdv, osheets, ovis, ohid)
                                    == workbook_spec(
                                    evs.skip(1),
                                    rdv,
                                    sheets.deep_view(),
                                    vis.deep_view(),
                                    hid.deep_view(),
                                ));
                            }
                        },
                        Err(e) => {
                            return Err(e);
                        },
                    }
                }
            },
            XmlEvent::Eof => {
                return Ok((sheets, vis, hid));
            },
            _ => {},
        }
        i += 1;
    }
    proof {
        assert(events@.skip(n as int) =~= Seq::<XmlEvent>::empty());
    }
    Ok((sheets, vis, hid))
}

/// Apply one `sheet` element to the workbook tables.
fn apply_sheet(
    attrs: &Vec<(String, String)>,
    refs: &Vec<(String, String)>,
    sheets: &mut Vec<(String, String)>,
    vis: &mut Vec<String>,
    hid: &mut Vec<String>,
) -> (r: Result<(), XlsxError>)
    ensures
        match r {
            Ok(u) => ({
                &&& spec_attr(attrs@, "name"@) matches Some(nm)
                &&& spec_attr(attrs@, "r:id"@) is Some
                &&& assoc_str(refs.deep_view(), spec_attr(attrs@, "r:id"@).unwrap()) is Some
                &&& final(sheets).deep_view() == old(sheets).deep_view().push(
                    (
                        spec_attr(attrs@, "name"@).unwrap(),
                        sheet_path(
                            assoc_str(
                                refs.deep_view(),
                                spec_attr(attrs@, "r:id"@).unwrap(),
                            ).unwrap(),
                        ),
                    ),
                )
                &&& (if spec_attr(attrs@, "state"@) == Some("hidden"@) {
                    final(hid).deep_view() == old(hid).deep_view().push(
                        spec_attr(attrs@, "name"@).unwrap(),
                    ) && *final(vis) == *old(vis)
                } else {
                    final(vis).deep_view() == old(vis).deep_view().push(
                        spec_attr(attrs@, "name"@).unwrap(),
                    ) && *final(hid) == *old(hid)
                })
            }),
            Err(e) => ({
                &&& *final(sheets) == *old(sheets)
                &&& *final(vis) == *old(vis)
                &&& *final(hid) == *old(hid)
                &&& (if spec_attr(attrs@, "name"@) is None || spec_attr(attrs@, "r:id"@)
                    is None {
                    e == XlsxError::MissingAttribute
                } else {
                    e == XlsxError::UnknownRelationship && assoc_str(
                        refs.deep_view(),
                        spec_attr(attrs@, "r:id"@).unwrap(),
                    ) is None
                })
            }),
        },
{
    let nm = match find_attr(attrs, "name") {
        Some(v) => v.clone(),
        None => {
            return Err(XlsxError::MissingAttribute);
        },
    };
    let rid = match find_attr(attrs, "r:id") {
        Some(v) => v.clone(),
        None => {
            return Err(XlsxError::MissingAttribute);
        },
    };
    let tg = match assoc_get_str(refs, rid.as_str()) {
        Some(v) => v,
        None => {
            return Err(XlsxError::UnknownRelationship);
        },
    };
    let path = resolve_sheet_path(tg);
    let hidden = match find_attr(attrs, "state") {
        Some(v) => str_eq(v.as_str(), "hidden"),
        None => false,
    };
    let ghost osheets = sheets.deep_view();
    let ghost ovis = vis.deep_view();
    let ghost ohid = hid.deep_view();
    if hidden {
        hid.push(nm.clone());
        proof {
            assert(hid.deep_view() =~= ohid.push(nm@));
        }
    } else {
        vis.push(nm.clone());
        proof {
            assert(vis.deep_view() =~= ovis.push(nm@));
        }
    }
    sheets.push((nm, path));
    proof {
        assert(sheets.deep_view() =~= osheets.push(
            (sheets@.last().0@, sheets@.last().1@),
        ));
    }
    Ok(())
}

// -------------------------------------------------------------- styles

/// Classify a custom format code: `yy` makes it a date, additionally `h`
/// or `ss` a datetime; `ss` alone a time; anything else is unclassified.
pub open spec fn classify_code(code: Seq<char>) -> Option<u8> {
    if has_sub2(code, 'y', 'y') {
        if has_char(code, 'h') || has_sub2(code, 's', 's') {
            Some(FMT_DATETIME)
        } else {
            Some(FMT_DATE)
        }
    } else if has_sub2(code, 's', 's') {
        Some(FMT_TIME)
    } else {
        None
    }
}

/// Whether attribute text parses as a `u32`.
pub open spec fn attr_u32_ok(t: Seq<char>) -> bool {
    t.len() > 0 && all_digits(t) && digits_val(t) <= u32::MAX
}

/// One `numFmt` element's contribution to the classification table.
pub open spec fn numfmt_step(attrs: Seq<(String, String)>, fmts: Seq<(u32, u8)>) -> Result<
    Seq<(u32, u8)>,
    XlsxError,
> {
    match (spec_attr(attrs, "formatCode"@), spec_attr(attrs, "numFmtId"@)) {
        (Some(code), Some(idt)) => {
            match classify_code(code) {
                Some(k) => if attr_u32_ok(idt) {
                    Ok(fmts.push((digits_val(idt) as u32, k)))
                } else {
                    Err(XlsxError::MalformedXml)
                },
                None => Ok(fmts),
            }
        },
        _ => Err(XlsxError::MissingAttribute),
    }
}

/// One `xf` element's contribution to the style map.
pub open spec fn xf_step(attrs: Seq<(String, String)>, inx: u32, styles: Seq<(u32, u32)>) -> Result<
    Seq<(u32, u32)>,
    XlsxError,
> {
    match spec_attr(attrs, "numFmtId"@) {
        Some(idt) => if attr_u32_ok(idt) && inx < u32::MAX {
            Ok(styles.push((inx, digits_val(idt) as u32)))
        } else {
            Err(XlsxError::MalformedXml)
        },
        None => Err(XlsxError::MissingAttribute),
    }
}

/// The style tables read from the remaining events: `numFmts` and
/// `cellXfs` activate collection; each `numFmt` classifies its format id,
/// each `xf` maps the running cell-format index to its format id; the end
/// of `cellXfs`, or of the part, stops.
pub open spec fn styles_spec(
    evs: Seq<XmlEvent>,
    act: bool,
    inx: u32,
    styles: Seq<(u32, u32)>,
    fmts: Seq<(u32, u8)>,
) -> Result<(Seq<(u32, u32)>, Seq<(u32, u8)>), XlsxError>
    decreases evs.len(),
{
    if evs.len() == 0 {
        Ok((styles, fmts))
    } else {
        match evs[0] {
            XmlEvent::Start { name, attrs } => {
                if name@ == "cellXfs"@ || name@ == "numFmts"@ {
                    styles_spec(evs.skip(1), true, inx, styles, fmts)
                } else if act && name@ == "numFmt"@ {
                    match numfmt_step(attrs@, fmts) {
                        Ok(f2) => styles_spec(evs.skip(1), act, inx, styles, f2),
                        Err(e) => Err(e),
                    }
                } else if act && name@ == "xf"@ {
                    match xf_step(attrs@, inx, styles) {
                        Ok(s2) => styles_spec(evs.skip(1), act, (inx + 1) as u32, s2, fmts),
                        Err(e) => Err(e),
                    }
                } else {
                    styles_spec(evs.skip(1), act, inx, styles, fmts)
                }
            },
            XmlEvent::Empty { name, attrs } => {
                if act && name@ == "numFmt"@ {
                    match numfmt_step(attrs@, fmts) {
                        Ok(f2) => styles_spec(evs.skip(1), act, inx, styles, f2),
                        Err(e) => Err(e),
                    }
                } else if act && name@ == "xf"@ {
                    match xf_step(attrs@, inx, styles) {
                        Ok(s2) => styles_spec(evs.skip(1), act, (inx + 1) as u32, s2, fmts),
                        Err(e) => Err(e),
                    }
                } else {
                    styles_spec(evs.skip(1), act, inx, styles, fmts)
                }
            },
            XmlEvent::End { name } => {
                if name@ == "numFmts"@ {
                    styles_spec(evs.skip(1), false, inx, styles, fmts)
                } else if name@ == "cellXfs"@ {
                    Ok((styles, fmts))
                } else {
                    styles_spec(evs.skip(1), act, inx, styles, fmts)
                }
            },
            XmlEvent::Eof => Ok((styles, fmts)),
            _ => styles_spec(evs.skip(1), act, inx, styles, fmts),
        }
    }
}

/// Apply one `numFmt` element to the classification table.
fn apply_numfmt(attrs: &Vec<(String, String)>, fmts: &mut Vec<(u32, u8)>) -> (r: Result<
    (),
    XlsxError,
>)
    ensures
        match r {
            Ok(u) => numfmt_step(attrs@, old(fmts)@) == Ok::<_, XlsxError>(final(fmts)@),
            Err(e) => numfmt_step(attrs@, old(fmts)@) matches Err(e2) && e2 == e && *final(fmts)
                == *old(fmts),
        },
{
    let code = match find_attr(attrs, "formatCode") {
        Some(v) => v,
        None => {
            return Err(XlsxError::MissingAttribute);
        },
    };
    let idt = match find_attr(attrs, "numFmtId") {
        Some(v) => v,
        None => {
            return Err(XlsxError::MissingAttribute);
        },
    };
    let has_yy = contains2(code.as_str(), 'y', 'y');
    let has_h = contains1(code.as_str(), 'h');
    let has_ss = contains2(code.as_str(), 's', 's');
    let kind: Option<u8> = if has_yy {
        if has_h || has_ss {
            Some(FMT_DATETIME)
        } else {
            Some(FMT_DATE)
        }
    } else if has_ss {
        Some(FMT_TIME)
    } else {
        None
    };
    match kind {
        Some(k) => {
            match parse_u32(idt.as_str()) {
                Some(id) => {
                    let ghost of = fmts@;
                    fmts.push((id, k));
                    proof {
                        assert(fmts@ =~= of.push((id, k)));
                    }
                    Ok(())
                },
                None => Err(XlsxError::MalformedXml),
            }
        },
        None => Ok(()),
    }
}

/// Apply one `xf` element to the style map.
fn apply_xf(attrs: &Vec<(String, String)>, inx: u32, styles: &mut Vec<(u32, u32)>) -> (r: Result<
    (),
    XlsxError,
>)
    ensures
        match r {
            Ok(u) => xf_step(attrs@, inx, old(styles)@) == Ok::<_, XlsxError>(final(styles)@),
            Err(e) => xf_step(attrs@, inx, old(styles)@) matches Err(e2) && e2 == e
                && *final(styles) == *old(styles),
        },
{
    let idt = match find_attr(attrs, "numFmtId") {
        Some(v) => v,
        None => {
            return Err(XlsxError::MissingAttribute);
        },
    };
    if inx == u32::MAX {
        return Err(XlsxError::MalformedXml);
    }
    match parse_u32(idt.as_str()) {
        Some(id) => {
            let ghost os = styles@;
            styles.push((inx, id));
            proof {
                assert(styles@ =~= os.push((inx, id)));
            }
            Ok(())
        },
        None => Err(XlsxError::MalformedXml),
    }
}

/// Read the styles part: the cell-format index to format-id map, and the
/// classification table extended from the built-in formats by every
/// date-or-time-shaped custom format.
pub fn parse_styles(events: &Vec<XmlEvent>) -> (r: Result<
    (Vec<(u32, u32)>, Vec<(u32, u8)>),
    XlsxError,
>)
    ensures
        match r {
            Ok(t) => styles_spec(events@, false, 0, Seq::empty(), builtin_fmts())
                == Ok::<_, XlsxError>((t.0@, t.1@)),
            Err(e) => styles_spec(events@, false, 0, Seq::empty(), builtin_fmts()) matches Err(e2)
                && e2 == e,
        },
{
    let n = events.len();
    let mut styles: Vec<(u32, u32)> = Vec::new();
    let mut fmts: Vec<(u32, u8)> = builtin_datetime_fmts();
    let mut act = false;
    let mut inx: u32 = 0;
    let mut i: usize = 0;
    proof {
        assert(events@.skip(0) =~= events@);
        assert(styles@ =~= Seq::<(u32, u32)>::empty());
    }
    while i < n
        invariant
            i <= n == events@.len(),
            styles_spec(events@, false, 0, Seq::empty(), builtin_fmts()) == styles_spec(
                events@.skip(i as int),
                act,
                inx,
                styles@,
                fmts@,
            ),
        decreases n - i,
    {
        proof {
            assert(events@.skip(i as int)[0] == events@[i as int]);
            assert(events@.skip(i as int).skip(1) =~= events@.skip(i + 1));
        }
        match &events[i] {
            XmlEvent::Start { name, attrs } => {
                if str_eq(name.as_str(), "cellXfs") || str_eq(name.as_str(), "numFmts") {
                    act = true;
                } else if act && str_eq(name.as_str(), "numFmt") {
                    match apply_numfmt(attrs, &mut fmts) {
                        Ok(u) => {},
                        Err(e) => {
                            return Err(e);
                        },
                    }
                } else if act && str_eq(name.as_str(), "xf") {
                    match apply_xf(attrs, inx, &mut styles) {
                        Ok(u) => {},
                        Err(e) => {
                            return Err(e);
                        },
                    }
                    inx = inx + 1;
                }
            },
            XmlEvent::Empty { name, attrs } => {
                if act && str_eq(name.as_str(), "numFmt") {
                    match apply_numfmt(attrs, &mut fmts) {
                        Ok(u) => {},
                        Err(e) => {
                            return Err(e);
                        },
                    }
                } else if act && str_eq(name.as_str(), "xf") {
                    match apply_xf(attrs, inx, &mut styles) {
                        Ok(u) => {},
                        Err(e) => {
                            return Err(e);
                        },
                    }
                    inx = inx + 1;
                }
            },
            XmlEvent::End { name } => {
                if str_eq(name.as_str(), "numFmts") {
                    act = false;
                } else if str_eq(name.as_str(), "cellXfs") {
                    return Ok((styles, fmts));
                }
            },
            XmlEvent::Eof => {
                return Ok((styles, fmts));
            },
            _ => {},
        }
        i += 1;
    }
    proof {
        assert(events@.skip(n as int) =~= Seq::<XmlEvent>::empty());
    }
    Ok((styles, fmts))
}

// ------------------------------------------------------ shared strings

/// The declared capacity of the `sst` element: its `uniqueCount`
/// attribute, or failing that its `count` attribute.
pub open spec fn sst_cap(attrs: Seq<(String, String)>) -> Result<int, XlsxError> {
    match spec_attr(attrs, "uniqueCount"@) {
        Some(t) => if attr_u32_ok(t) {
            Ok(digits_val(t))
        } else {
            Err(XlsxError::MalformedXml)
        },
        None => match spec_attr(attrs, "count"@) {
            Some(t) => if attr_u32_ok(t) {
                Ok(digits_val(t))
            } else {
                Err(XlsxError::MalformedXml)
            },
            None => Err(XlsxError::MissingAttribute),
        },
    }
}

/// The shared-string table read from the remaining events.  Before the
/// `sst` element is seen, everything is skipped; a part that ends first
/// yields the empty table.  After it, each `si` element contributes the
/// concatenation of the text under its `t` children, and at the end the
/// table's length must equal the declared count.
pub open spec fn shared_spec(
    evs: Seq<XmlEvent>,
    cap: Option<int>,
    insert: bool,
    cur: Seq<char>,
    acc: Seq<Seq<char>>,
) -> Result<Seq<Seq<char>>, XlsxError>
    decreases evs.len(),
{
    if evs.len() == 0 {
        shared_finish(cap, acc)
    } else {
        match evs[0] {
            XmlEvent::Start { name, attrs } => {
                match cap {
                    None => {
                        if name@ == "sst"@ {
                            match sst_cap(attrs@) {
                                Ok(c) => shared_spec(evs.skip(1), Some(c), insert, cur, acc),
                                Err(e) => Err(e),
                            }
                        } else {
                            shared_spec(evs.skip(1), cap, insert, cur, acc)
                        }
                    },
                    Some(c) => {
                        if name@ == "si"@ {
                            shared_spec(evs.skip(1), cap, insert, Seq::empty(), acc)
                        } else if name@ == "t"@ {
                            shared_spec(evs.skip(1), cap, true, cur, acc)
                        } else {
                            shared_spec(evs.skip(1), cap, false, cur, acc)
                        }
                    },
                }
            },
            XmlEvent::Text { text } => {
                if cap is Some && insert {
                    shared_spec(evs.skip(1), cap, insert, cur + text@, acc)
                } else {
                    shared_spec(evs.skip(1), cap, insert, cur, acc)
                }
            },
            XmlEvent::End { name } => {
                if cap is Some && name@ == "si"@ {
                    shared_spec(evs.skip(1), cap, insert, cur, acc.push(cur))
                } else {
                    shared_spec(evs.skip(1), cap, insert, cur, acc)
                }
            },
            XmlEvent::Eof => shared_finish(cap, acc),
            _ => shared_spec(evs.skip(1), cap, insert, cur, acc),
        }
    }
}

/// The finished table: empty when `sst` was never seen, otherwise checked
/// against the declared count.
pub open spec fn shared_finish(cap: Option<int>, acc: Seq<Seq<char>>) -> Result<
    Seq<Seq<char>>,
    XlsxError,
> {
    match cap {
        None => Ok(Seq::empty()),
        Some(c) => if acc.len() == c {
            Ok(acc)
        } else {
            Err(XlsxError::SharedStringCountMismatch)
        },
    }
}

/// Read the shared-string part into its table of strings.
pub fn parse_shared_strings(events: &Vec<XmlEvent>) -> (r: Result<Vec<String>, XlsxError>)
    ensures
        match r {
            Ok(t) => shared_spec(events@, None, false, Seq::empty(), Seq::empty())
                == Ok::<_, XlsxError>(t.deep_view()),
            Err(e) => shared_spec(events@, None, false, Seq::empty(), Seq::empty()) matches Err(
                e2,
            ) && e2 == e,
        },
{
    let n = events.len();
    let mut cap: Option<usize> = None;
    let mut insert = false;
    let mut cur: Vec<char> = Vec::new();
    let mut acc: Vec<String> = Vec::new();
    let mut i: usize = 0;
    proof {
        assert(events@.skip(0) =~= events@);
        assert(acc.deep_view() =~= Seq::<Seq<char>>::empty());
        assert(cur@ =~= Seq::<char>::empty());
    }
    while i < n
        invariant
            i <= n == events@.len(),
            shared_spec(events@, None, false, Seq::empty(), Seq::empty()) == shared_spec(
                events@.skip(i as int),
                match cap {
                    Some(c) => Some(c as int),
                    None => None,
                },
                insert,
                cur@,
                acc.deep_view(),
            ),
        decreases n - i,
    {
        proof {
            assert(events@.skip(i as int)[0] == events@[i as int]);
            assert(events@.skip(i as int).skip(1) =~= events@.skip(i + 1));
        }
        let ghost oacc = acc.deep_view();
        match &events[i] {
            XmlEvent::Start { name, attrs } => {
                match cap {
                    None => {
                        if str_eq(name.as_str(), "sst") {
                            let c = match find_attr(attrs, "uniqueCount") {
                                Some(t) => {
                                    match parse_usize(t.as_str()) {
                                        Some(c) => c,
                                        None => {
                                            return Err(XlsxError::MalformedXml);
                                        },
                                    }
                                },
                                None => {
                                    match find_attr(attrs, "count") {
                                        Some(t) => {
                                            match parse_usize(t.as_str()) {
                                                Some(c) => c,
                                                None => {
                                                    return Err(XlsxError::MalformedXml);
                                                },
                                            }
                                        },
                                        None => {
                                            return Err(XlsxError::MissingAttribute);
                                        },
                                    }
                                },
                            };
                            cap = Some(c);
                        }
                    },
                    Some(c0) => {
                        if str_eq(name.as_str(), "si") {
                            cur = Vec::new();
                            proof {
                                assert(cur@ =~= Seq::<char>::empty());
                            }
                        } else if str_eq(name.as_str(), "t") {
                            insert = true;
                        } else {
                            insert = false;
                        }
                    },
                }
            },
            XmlEvent::Text { text } => {
                if cap.is_some() && insert {
                    crate::text::push_str_chars(&mut cur, text.as_str());
                }
            },
            XmlEvent::End { name } => {
                if cap.is_some() && str_eq(name.as_str(), "si") {
                    let s = crate::text::string_from_chars(&cur);
                    acc.push(s);
                    proof {
                        assert(acc.deep_view() =~= oacc.push(cur@));
                    }
                }
            },
            XmlEvent::Eof => {
                return finish_shared(cap, acc);
            },
            _ => {},
        }
        i += 1;
    }
    proof {
        assert(events@.skip(n as int) =~= Seq::<XmlEvent>::empty());
    }
    finish_shared(cap, acc)
}

/// Check the finished table against the declared count.
fn finish_shared(cap: Option<usize>, acc: Vec<String>) -> (r: Result<Vec<String>, XlsxError>)
    ensures
        match r {
            Ok(t) => shared_finish(
                match cap {
                    Some(c) => Some(c as int),
                    None => None,
                },
                acc.deep_view(),
            ) == Ok::<_, XlsxError>(t.deep_view()),
            Err(e) => shared_finish(
                match cap {
                    Some(c) => Some(c as int),
                    None => None,
                },
                acc.deep_view(),
            ) matches Err(e2) && e2 == e,
        },
{
    match cap {
        None => {
            let t: Vec<String> = Vec::new();
            proof {
                assert(t.deep_view() =~= Seq::<Seq<char>>::empty());
            }
            Ok(t)
        },
        Some(c) => {
            if acc.len() == c {
                Ok(acc)
            } else {
                Err(XlsxError::SharedStringCountMismatch)
            }
        },
    }
}

// ------------------------------------------------------------ the book

/// The loaded workbook: sheet identities, style classifications and,
/// once loaded, the shared-string table.
pub struct XlsxBook {
    /// Whether the shared-string table has been loaded.
    pub ini_share: bool,
    /// The shared-string table.
    pub str_share: Vec<String>,
    /// The hidden sheets' names.
    pub shts_hidden: Vec<String>,
    /// The visible sheets' names.
    pub shts_visible: Vec<String>,
    /// Cell-format index to numeric-format id.
    pub map_style: Vec<(u32, u32)>,
    /// Sheet name to worksheet part path.
    pub map_sheet: Vec<(String, String)>,
    /// Numeric-format id to format kind.
    pub datetime_fmts: Vec<(u32, u8)>,
}

impl XlsxBook {
    /// Assemble a book from its parts' event streams.  The relationship
    /// and workbook parts are required; a missing styles part leaves only
    /// the built-in format classifications.  The shared-string table is
    /// loaded separately.
    pub fn new(
        rels_events: &Vec<XmlEvent>,
        workbook_events: &Vec<XmlEvent>,
        styles_events: Option<&Vec<XmlEvent>>,
    ) -> (r: Result<XlsxBook, XlsxError>)
        ensures
            match r {
                Ok(b) => ({
                    &&& rels_spec(rels_events@, Seq::empty()) matches Ok(refs)
                        && workbook_spec(workbook_events@, refs, Seq::empty(), Seq::empty(), Seq::empty())
                        == Ok::<_, XlsxError>(
                        (
                            b.map_sheet.deep_view(),
                            b.shts_visible.deep_view(),
                            b.shts_hidden.deep_view(),
                        ),
                    )
                    &&& (match styles_events {
                        Some(se) => styles_spec(se@, false, 0, Seq::empty(), builtin_fmts())
                            == Ok::<_, XlsxError>((b.map_style@, b.datetime_fmts@)),
                        None => b.map_style@ == Seq::<(u32, u32)>::empty() && b.datetime_fmts@
                            == builtin_fmts(),
                    })
                    &&& !b.ini_share
                    &&& b.str_share@ == Seq::<String>::empty()
                }),
                Err(e) => (match rels_spec(rels_events@, Seq::empty()) {
                    Err(e2) => e == e2,
                    Ok(refs) => match workbook_spec(
                        workbook_events@,
                        refs,
                        Seq::empty(),
                        Seq::empty(),
                        Seq::empty(),
                    ) {
                        Err(e2) => e == e2,
                        Ok(t) => match styles_events {
                            Some(se) => styles_spec(se@, false, 0, Seq::empty(), builtin_fmts())
                                matches Err(e2) && e2 == e,
                            None => false,
                        },
                    },
                }),
            },
    {
        let refs = match parse_relationships(rels_events) {
            Ok(m) => m,
            Err(e) => {
                return Err(e);
            },
        };
        let (map_sheet, shts_visible, shts_hidden) = match parse_workbook(
            workbook_events,
            &refs,
        ) {
            Ok(t) => t,
            Err(e) => {
                return Err(e);
            },
        };
        let (map_style, datetime_fmts) = match styles_events {
            Some(se) => {
                match parse_styles(se) {
                    Ok(t) => t,
                    Err(e) => {
                        return Err(e);
                    },
                }
            },
            None => {
                let s: Vec<(u32, u32)> = Vec::new();
                (s, builtin_datetime_fmts())
            },
        };
        Ok(
            XlsxBook {
                ini_share: false,
                str_share: Vec::new(),
                shts_hidden,
                shts_visible,
                map_style,
                map_sheet,
                datetime_fmts,
            },
        )
    }

    /// The hidden sheets' names.
    pub fn get_hidden_sheets(&self) -> (r: &Vec<String>)
        ensures
            r == &self.shts_hidden,
    {
        &self.shts_hidden
    }

    /// The visible sheets' names.
    pub fn get_visible_sheets(&self) -> (r: &Vec<String>)
        ensures
            r == &self.shts_visible,
    {
        &self.shts_visible
    }

    /// The sheet-name to part-path map.
    pub fn get_sheets_maps(&self) -> (r: &Vec<(String, String)>)
        ensures
            r == &self.map_sheet,
    {
        &self.map_sheet
    }

    /// Whether the shared-string table has been loaded.
    pub fn shared_loaded(&self) -> (r: bool)
        ensures
            r == self.ini_share,
    {
        self.ini_share
    }

    /// Load the shared-string table from its part's events.  Loading a
    /// second time does nothing.
    pub fn load_share_strings(&mut self, events: &Vec<XmlEvent>) -> (r: Result<(), XlsxError>)
        ensures
            old(self).ini_share ==> r is Ok && *final(self) == *old(self),
            !old(self).ini_share ==> match r {
                Ok(u) => ({
                    &&& shared_spec(events@, None, false, Seq::empty(), Seq::empty())
                        == Ok::<_, XlsxError>(final(self).str_share.deep_view())
                    &&& final(self).ini_share
                    &&& final(self).map_style == old(self).map_style
                    &&& final(self).map_sheet == old(self).map_sheet
                    &&& final(self).datetime_fmts == old(self).datetime_fmts
                    &&& final(self).shts_visible == old(self).shts_visible
                    &&& final(self).shts_hidden == old(self).shts_hidden
                }),
                Err(e) => shared_spec(events@, None, false, Seq::empty(), Seq::empty())
                    matches Err(e2) && e2 == e && *final(self) == *old(self),
            },
    {
        if self.ini_share {
            return Ok(());
        }
        match parse_shared_strings(events) {
            Ok(t) => {
                self.str_share = t;
                self.ini_share = true;
                Ok(())
            },
            Err(e) => Err(e),
        }
    }
}

} // verus!
