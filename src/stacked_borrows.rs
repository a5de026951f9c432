use std::collections::HashMap;
use vstd::prelude::*;

use crate::text::{decimal, decimal_string};

verus! {

broadcast use vstd::std_specs::hash::group_hash_axioms;

pub type PtrId = u32;

/// The access right that a stack entry grants.
#[derive(Copy, Clone, Debug, Hash, PartialEq, Eq, Structural)]
pub enum Permission {
    /// Exclusive read and write access.
    Unique,
    /// Non-exclusive write access, held by raw pointers.
    SharedReadWrite,
    /// Non-exclusive read-only access.
    SharedReadOnly,
}

/// The identity stamped on a pointer or reference when it is created.
#[derive(Copy, Clone, Debug, Hash, PartialEq, Eq, Structural)]
pub enum Tag {
    Tagged(PtrId),
    Untagged,
}

/// One entry of a permission stack.
#[derive(Copy, Clone, Debug, Hash, PartialEq, Eq, Structural)]
pub struct StackItem {
    pub tag: Tag,
    pub permission: Permission,
}

/// An access that the permission stack cannot justify.
#[derive(Copy, Clone, Debug, PartialEq, Eq, Structural)]
pub enum AccessError {
    /// The tag may not write: it is not on the stack.
    NoWriteAccess(Tag),
    /// The tag may not read: it is not on the stack.
    NoReadAccess(Tag),
}

/// The permission stack of one function activation. Entries are kept bottom
/// first: the last entry is the top of the stack.
pub struct Stack {
    borrows: Vec<StackItem>,
    pub names: HashMap<u32, String>,
}

impl View for Stack {
    type V = Seq<StackItem>;

    closed spec fn view(&self) -> Seq<StackItem> {
        self.borrows@
    }
}

pub open spec fn tag_is(tag: Tag) -> spec_fn(StackItem) -> bool {
    |e: StackItem| e.tag == tag
}

pub open spec fn grants_shared_rw() -> spec_fn(StackItem) -> bool {
    |e: StackItem| e.permission == Permission::SharedReadWrite
}

pub open spec fn is_shared(e: StackItem) -> bool {
    e.permission != Permission::Unique
}

/// The length of the part of `s` that ends with its topmost entry satisfying
/// `p`, or zero when no entry satisfies `p`.
pub open spec fn reach(s: Seq<StackItem>, p: spec_fn(StackItem) -> bool) -> nat
    decreases s.len(),
{
    if s.len() == 0 {
        0
    } else if p(s.last()) {
        s.len()
    } else {
        reach(s.drop_last(), p)
    }
}

pub open spec fn has_tag(s: Seq<StackItem>, tag: Tag) -> bool {
    exists|i: int| 0 <= i < s.len() && #[trigger] s[i].tag == tag
}

pub open spec fn has_shared_rw(s: Seq<StackItem>) -> bool {
    exists|i: int| 0 <= i < s.len() && #[trigger] s[i].permission == Permission::SharedReadWrite
}

/// The stack after a write through `tag`: every entry above the topmost entry
/// of `tag` is discarded; the whole stack when there is none.
pub open spec fn after_use(s: Seq<StackItem>, tag: Tag) -> Seq<StackItem> {
    s.take(reach(s, tag_is(tag)) as int)
}

/// The stack after a read through `tag`: the `Unique` entries above the topmost
/// entry of `tag` are discarded, all of them when there is none; every other
/// entry stays where it was.
pub open spec fn after_read(s: Seq<StackItem>, tag: Tag) -> Seq<StackItem> {
    let r = reach(s, tag_is(tag)) as int;
    s.take(r) + s.skip(r).filter(|e: StackItem| is_shared(e))
}

/// The stack after a write through a raw pointer: the entries above the
/// topmost `SharedReadWrite` entry are discarded; nothing changes when there
/// is no such entry.
pub open spec fn after_use_raw(s: Seq<StackItem>) -> Seq<StackItem> {
    if has_shared_rw(s) {
        s.take(reach(s, grants_shared_rw()) as int)
    } else {
        s
    }
}

/// The stack after a new pointer or reference with `item` is introduced: an
/// entry equal to `item` already present is re-validated by a write through
/// its tag; otherwise `item` goes on top.
pub open spec fn after_new_ref(s: Seq<StackItem>, item: StackItem) -> Seq<StackItem> {
    if s.contains(item) {
        after_use(s, item.tag)
    } else {
        s.push(item)
    }
}

/// The text of a tag: `<id>` or `<untagged>`.
pub open spec fn tag_text(tag: Tag) -> Seq<char> {
    match tag {
        Tag::Tagged(id) => seq!['<'] + decimal(id as nat) + seq!['>'],
        Tag::Untagged => seq!['<', 'u', 'n', 't', 'a', 'g', 'g', 'e', 'd', '>'],
    }
}

/// The display name of a tag: the name registered for its id, else its text.
pub open spec fn tag_name(names: Map<u32, String>, tag: Tag) -> Seq<char> {
    match tag {
        Tag::Tagged(id) => if names.contains_key(id) {
            names[id]@
        } else {
            tag_text(tag)
        },
        Tag::Untagged => tag_text(tag),
    }
}

pub proof fn lemma_reach(s: Seq<StackItem>, p: spec_fn(StackItem) -> bool)
    ensures
        reach(s, p) <= s.len(),
        reach(s, p) > 0 ==> p(s[reach(s, p) - 1]),
        forall|j: int| reach(s, p) <= j < s.len() ==> !p(#[trigger] s[j]),
        reach(s, p) > 0 <==> exists|i: int| 0 <= i < s.len() && p(#[trigger] s[i]),
    decreases s.len(),
{
    if s.len() > 0 {
        let t = s.drop_last();
        lemma_reach(t, p);
        if !p(s.last()) {
            assert forall|j: int| reach(s, p) <= j < s.len() implies !p(#[trigger] s[j]) by {
                if j < s.len() - 1 {
                    assert(s[j] == t[j]);
                }
            }
            if exists|i: int| 0 <= i < s.len() && p(#[trigger] s[i]) {
                let i = choose|i: int| 0 <= i < s.len() && p(#[trigger] s[i]);
                assert(t[i] == s[i]);
            }
            if reach(s, p) > 0 {
                let i = reach(t, p) - 1;
                assert(t[i] == s[i]);
            }
        }
    }
}

impl Stack {
    /// No two entries are equal: each (tag, permission) pair is on the stack
    /// at most once.
    pub open spec fn wf(&self) -> bool {
        self@.no_duplicates()
    }

    /// The display names registered for tag ids.
    pub closed spec fn names_map(&self) -> Map<u32, String> {
        self.names@
    }

    /// The entries, bottom first.
    pub fn items(&self) -> (r: &Vec<StackItem>)
        ensures
            r@ == self@,
    {
        &self.borrows
    }

    /// Replaces the display names registered for tag ids.
    pub fn set_names(&mut self, names: HashMap<u32, String>)
        ensures
            final(self)@ == old(self)@,
            final(self).names_map() == names@,
    {
        self.names = names;
    }

    pub fn new() -> (r: Stack)
        ensures
            r@ == Seq::<StackItem>::empty(),
            r.names_map() == Map::<u32, String>::empty(),
            r.wf(),
    {
        Stack { borrows: Vec::new(), names: HashMap::new() }
    }

    /// Empties the stack.
    pub fn clean(&mut self)
        ensures
            final(self)@ == Seq::<StackItem>::empty(),
            final(self).names_map() == old(self).names_map(),
            final(self).wf(),
    {
        self.borrows.clear();
    }

    /// The length of the part of the stack that ends with the topmost entry of `tag`.
    fn reach_of_tag(&self, tag: Tag) -> (r: usize)
        ensures
            r == reach(self@, tag_is(tag)),
    {
        let ghost s = self@;
        let mut i: usize = self.borrows.len();
        assert(s.take(i as int) =~= s);
        while i > 0 && self.borrows[i - 1].tag != tag
            invariant
                i <= s.len(),
                s == self@,
                reach(s, tag_is(tag)) == reach(s.take(i as int), tag_is(tag)),
            decreases i,
        {
            assert(s.take(i as int).drop_last() =~= s.take(i - 1));
            i = i - 1;
        }
        i
    }

    /// The length of the part of the stack that ends with the topmost `SharedReadWrite` entry.
    fn reach_of_shared_rw(&self) -> (r: usize)
        ensures
            r == reach(self@, grants_shared_rw()),
    {
        let ghost s = self@;
        let mut i: usize = self.borrows.len();
        assert(s.take(i as int) =~= s);
        while i > 0 && self.borrows[i - 1].permission != Permission::SharedReadWrite
            invariant
                i <= s.len(),
                s == self@,
                reach(s, grants_shared_rw()) == reach(s.take(i as int), grants_shared_rw()),
            decreases i,
        {
            assert(s.take(i as int).drop_last() =~= s.take(i - 1));
            i = i - 1;
        }
        i
    }

    /// Introduces a pointer or reference with `tag` and `permission`. An equal
    /// entry already on the stack is re-validated instead of duplicated.
    pub fn new_ref(&mut self, tag: Tag, permission: Permission)
        requires
            old(self).wf(),
        ensures
            final(self)@ == after_new_ref(old(self)@, StackItem { tag, permission }),
            final(self).names_map() == old(self).names_map(),
            final(self).wf(),
    {
        let new_item = StackItem::new(tag, permission);
        let mut i: usize = 0;
        let mut present = false;
        while i < self.borrows.len()
            invariant
                i <= self@.len(),
                self@ == old(self)@,
                self.names_map() == old(self).names_map(),
                present <==> exists|j: int| 0 <= j < i && self@[j] == new_item,
            decreases self@.len() - i,
        {
            if self.borrows[i] == new_item {
                present = true;
            }
            i = i + 1;
        }
        if present {
            let _ = self.use_value(tag);
        } else {
            self.borrows.push(new_item);
            assert forall|a: int, b: int|
                0 <= a < self@.len() && 0 <= b < self@.len() && a != b implies self@[a]
                != self@[b] by {
                if a < old(self)@.len() && b < old(self)@.len() {
                    assert(old(self)@[a] != old(self)@[b]);
                }
            }
        }
    }

    /// A write through `tag`: entries above its topmost entry are discarded.
    /// Without such an entry the stack is emptied and the access refused.
    pub fn use_value(&mut self, tag: Tag) -> (r: Result<(), AccessError>)
        requires
            old(self).wf(),
        ensures
            final(self)@ == after_use(old(self)@, tag),
            r is Ok <==> has_tag(old(self)@, tag),
            r is Ok ==> final(self)@.len() > 0 && final(self)@.last().tag == tag,
            r is Err ==> r == Err::<(), AccessError>(AccessError::NoWriteAccess(tag))
                && final(self)@.len() == 0,
            final(self).names_map() == old(self).names_map(),
            final(self).wf(),
    {
        proof {
            lemma_reach(self@, tag_is(tag));
        }
        let k = self.reach_of_tag(tag);
        self.borrows.truncate(k);
        assert forall|a: int, b: int|
            0 <= a < self@.len() && 0 <= b < self@.len() && a != b implies self@[a]
            != self@[b] by {
            assert(old(self)@[a] != old(self)@[b]);
        }
        if k == 0 {
            Err(AccessError::NoWriteAccess(tag))
        } else {
            Ok(())
        }
    }

    /// A write through a raw pointer. Any `SharedReadWrite` entry grants it;
    /// the entries above the topmost one are discarded.
    pub fn use_raw(&mut self, tag: Tag) -> (r: Result<(), AccessError>)
        requires
            old(self).wf(),
        ensures
            final(self)@ == after_use_raw(old(self)@),
            r is Ok <==> has_shared_rw(old(self)@),
            r is Ok ==> final(self)@.len() > 0 && final(self)@.last().permission
                == Permission::SharedReadWrite,
            r is Err ==> r == Err::<(), AccessError>(AccessError::NoWriteAccess(tag)),
            final(self).names_map() == old(self).names_map(),
            final(self).wf(),
    {
        proof {
            lemma_reach(self@, grants_shared_rw());
        }
        let k = self.reach_of_shared_rw();
        if k == 0 {
            Err(AccessError::NoWriteAccess(tag))
        } else {
            self.borrows.truncate(k);
            assert forall|a: int, b: int|
                0 <= a < self@.len() && 0 <= b < self@.len() && a != b implies self@[a]
                != self@[b] by {
                assert(old(self)@[a] != old(self)@[b]);
            }
            Ok(())
        }
    }

    /// A read through a raw pointer: granted by any `SharedReadWrite` entry.
    /// The stack does not change.
    pub fn read_raw(&mut self, tag: Tag) -> (r: Result<(), AccessError>)
        requires
            old(self).wf(),
        ensures
            final(self)@ == old(self)@,
            r is Ok <==> has_shared_rw(old(self)@),
            r is Err ==> r == Err::<(), AccessError>(AccessError::NoReadAccess(tag)),
            final(self).names_map() == old(self).names_map(),
            final(self).wf(),
    {
        proof {
            lemma_reach(self@, grants_shared_rw());
        }
        let k = self.reach_of_shared_rw();
        if k == 0 {
            Err(AccessError::NoReadAccess(tag))
        } else {
            Ok(())
        }
    }

    /// A read through `tag`: the `Unique` entries above its topmost entry are
    /// discarded, shared entries stay. Without such an entry every `Unique`
    /// entry is discarded and the access refused.
    pub fn read_value(&mut self, tag: Tag) -> (r: Result<(), AccessError>)
        requires
            old(self).wf(),
        ensures
            final(self)@ == after_read(old(self)@, tag),
            r is Ok <==> has_tag(old(self)@, tag),
            r is Err ==> r == Err::<(), AccessError>(AccessError::NoReadAccess(tag)),
            final(self).names_map() == old(self).names_map(),
            final(self).wf(),
    {
        proof {
            lemma_reach(self@, tag_is(tag));
        }
        let ghost s = self@;
        let k = self.reach_of_tag(tag);
        let n = self.borrows.len();
        let mut kept: Vec<StackItem> = Vec::new();
        let mut i: usize = 0;
        while i < k
            invariant
                k <= n == s.len(),
                s == self@,
                i <= k,
                kept@ == s.take(i as int),
            decreases k - i,
        {
            kept.push(self.borrows[i]);
            assert(kept@ =~= s.take(i + 1));
            i = i + 1;
        }
        let mut j: usize = k;
        while j < n
            invariant
                k <= j <= n == s.len(),
                s == self@,
                kept@ == s.take(k as int) + s.subrange(k as int, j as int).filter(
                    |e: StackItem| is_shared(e),
                ),
            decreases n - j,
        {
            let item = self.borrows[j];
            let ghost f = |e: StackItem| is_shared(e);
            assert(s.subrange(k as int, j + 1) =~= s.subrange(k as int, j as int).push(item));
            proof {
                s.subrange(k as int, j as int).lemma_filter_push(item, f);
            }
            if item.permission != Permission::Unique {
                kept.push(item);
            }
            assert(kept@ =~= s.take(k as int) + s.subrange(k as int, j + 1).filter(f));
            j = j + 1;
        }
        assert(s.subrange(k as int, n as int) =~= s.skip(k as int));
        self.borrows = kept;
        proof {
            let f = |e: StackItem| is_shared(e);
            let t = s.skip(k as int).filter(f);
            assert forall|a: int, b: int|
                0 <= a < self@.len() && 0 <= b < self@.len() && a != b implies self@[a]
                != self@[b] by {
                if a >= k {
                    s.skip(k as int).lemma_filter_contains_rev(f, self@[a]);
                }
                if b >= k {
                    s.skip(k as int).lemma_filter_contains_rev(f, self@[b]);
                }
                lemma_filter_no_duplicates(s.skip(k as int), f);
                if a < k && b < k {
                    assert(s[a] != s[b]);
                } else if a < k {
                    let jb = choose|jb: int| 0 <= jb < s.skip(k as int).len() && #[trigger] s.skip(k as int)[jb] == self@[b];
                    assert(s[a] != s[k + jb]);
                } else if b < k {
                    let ja = choose|ja: int| 0 <= ja < s.skip(k as int).len() && #[trigger] s.skip(k as int)[ja] == self@[a];
                    assert(s[b] != s[k + ja]);
                } else {
                    assert(t[a - k] != t[b - k]);
                }
            }
        }
        if k == 0 {
            Err(AccessError::NoReadAccess(tag))
        } else {
            Ok(())
        }
    }

    /// Whether `tag` is anywhere on the stack.
    pub fn is_live(&self, tag: Tag) -> (r: bool)
        ensures
            r == has_tag(self@, tag),
    {
        let mut result = false;
        let mut i: usize = 0;
        while i < self.borrows.len() && !result
            invariant
                i <= self@.len(),
                !result ==> forall|j: int| 0 <= j < i ==> self@[j].tag != tag,
                result ==> has_tag(self@, tag),
            decreases self@.len() - i,
        {
            if self.borrows[i].tag == tag {
                result = true;
            }
            i = i + 1;
        }
        result
    }

    /// The display name of `tag`: the name registered for its id, else `<id>`
    /// or `<untagged>`.
    pub fn get_tag_name(&self, tag: Tag) -> (r: String)
        ensures
            r@ == tag_name(self.names_map(), tag),
    {
        match tag {
            Tag::Tagged(id) => {
                match self.names.get(&id) {
                    Some(x) => x.clone(),
                    None => {
                        let digits = decimal_string(id);
                        let mut name = String::from_str("<");
                        name.append(digits.as_str());
                        name.append(">");
                        proof {
                            reveal_strlit("<");
                            reveal_strlit(">");
                        }
                        name
                    },
                }
            },
            Tag::Untagged => {
                proof {
                    reveal_strlit("<untagged>");
                }
                String::from_str("<untagged>")
            },
        }
    }
}

/// Filtering keeps a sequence free of duplicates.
proof fn lemma_filter_no_duplicates(s: Seq<StackItem>, f: spec_fn(StackItem) -> bool)
    requires
        s.no_duplicates(),
    ensures
        s.filter(f).no_duplicates(),
    decreases s.len(),
{
    if s.len() > 0 {
        let t = s.drop_last();
        assert(t.no_duplicates()) by {
            assert forall|a: int, b: int| 0 <= a < t.len() && 0 <= b < t.len() && a != b implies t[a] != t[b] by {
                assert(s[a] != s[b]);
            }
        }
        lemma_filter_no_duplicates(t, f);
        assert(s =~= t.push(s.last()));
        t.lemma_filter_push(s.last(), f);
        if f(s.last()) {
            let ft = t.filter(f);
            assert(!ft.contains(s.last())) by {
                if ft.contains(s.last()) {
                    t.lemma_filter_contains_rev(f, s.last());
                    let i = choose|i: int| 0 <= i < t.len() && #[trigger] t[i] == s.last();
                    assert(s[i] == s[s.len() - 1]);
                }
            }
            assert(s =~= t.push(s.last()));
            t.lemma_filter_push(s.last(), f);
            assert(s.filter(f) == ft.push(s.last()));
            assert forall|a: int, b: int| 0 <= a < ft.len() + 1 && 0 <= b < ft.len() + 1 && a != b implies ft.push(s.last())[a] != ft.push(s.last())[b] by {
                if a < ft.len() && b < ft.len() {
                } else if a < ft.len() {
                    assert(ft.contains(ft[a]));
                } else {
                    assert(ft.contains(ft[b]));
                }
            }
        }
    }
}

impl StackItem {
    pub fn new(tag: Tag, permission: Permission) -> (r: StackItem)
        ensures
            r == (StackItem { tag, permission }),
    {
        StackItem { tag, permission }
    }
}

/// A read never discards a shared entry: every `SharedReadOnly` or
/// `SharedReadWrite` entry on the stack is still there after a read.
pub proof fn lemma_read_keeps_shared(s: Seq<StackItem>, tag: Tag, e: StackItem)
    requires
        s.contains(e),
        is_shared(e),
    ensures
        after_read(s, tag).contains(e),
{
    lemma_reach(s, tag_is(tag));
    let r = reach(s, tag_is(tag)) as int;
    let f = |x: StackItem| is_shared(x);
    let i = choose|i: int| 0 <= i < s.len() && #[trigger] s[i] == e;
    let res = after_read(s, tag);
    if i < r {
        assert(res[i] == e);
    } else {
        let t = s.skip(r);
        assert(t[i - r] == e);
        t.lemma_filter_contains(f, i - r);
        let ft = t.filter(f);
        let j = choose|j: int| 0 <= j < ft.len() && #[trigger] ft[j] == e;
        assert(res[r + j] == e);
    }
}

} // verus!
