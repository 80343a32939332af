//! The scan: one left-to-right pass over a raw buffer that collects the
//! syscall trampolines and inline hooks it meets, grouped by the section
//! that owns each of them.

use crate::disassembler::{disassemble_bytes, disassembly_of};
use crate::hex::{display_address, format_address};
use crate::parser::{
    find_section_name, raw_to_virtual, section_name_for, va_from_raw_address, PEInfo, Section,
    SectionView,
};
use crate::routines::{
    inline_hook_at, is_inline_hook, is_syscall_routine, lemma_syscall_bounds, syscall_bounds,
};
use vstd::prelude::*;

verus! {

/// The number of bytes captured for an inline hook, where the buffer has
/// that many left.
pub const INLINE_WINDOW: usize = 32;

/// How far the cursor moves past a newly reported inline hook: one less than
/// the window, so that the scan resumes on the window's last byte.
pub const INLINE_ADVANCE: usize = 31;

/// One detected hook.
#[derive(Debug, Clone)]
pub struct HookInfo {
    /// The virtual address of the first captured byte.
    pub address: usize,
    /// The address as `0x` and sixteen hexadecimal digits.
    pub ida_address: String,
    /// A copy of the bytes that matched.
    pub bytes: Vec<u8>,
    /// The captured bytes decoded, one display line per instruction.
    pub disassembly: Vec<String>,
}

/// The mathematical content of a [`HookInfo`].
pub struct HookInfoView {
    pub address: int,
    pub ida_address: Seq<char>,
    pub bytes: Seq<u8>,
    pub disassembly: Seq<Seq<char>>,
}

impl View for HookInfo {
    type V = HookInfoView;

    open spec fn view(&self) -> HookInfoView {
        HookInfoView {
            address: self.address as int,
            ida_address: self.ida_address@,
            bytes: self.bytes@,
            disassembly: self.disassembly.deep_view(),
        }
    }
}

impl DeepView for HookInfo {
    type V = HookInfoView;

    open spec fn deep_view(&self) -> HookInfoView {
        self@
    }
}

/// The hooks found in one section, in order of discovery.
#[derive(Debug, Clone)]
pub struct SectionHooks {
    /// The name of the section.
    pub section: String,
    /// The hooks, earliest first.
    pub hooks: Vec<HookInfo>,
}

/// The mathematical content of a [`SectionHooks`].
pub struct SectionHooksView {
    pub section: Seq<char>,
    pub hooks: Seq<HookInfoView>,
}

impl View for SectionHooks {
    type V = SectionHooksView;

    open spec fn view(&self) -> SectionHooksView {
        SectionHooksView { section: self.section@, hooks: self.hooks.deep_view() }
    }
}

impl DeepView for SectionHooks {
    type V = SectionHooksView;

    open spec fn deep_view(&self) -> SectionHooksView {
        self@
    }
}

/// The outcome of a scan: for each kind of hook, the sections in which one
/// was found, in order of first discovery, each with its hooks.
#[derive(Debug, Clone)]
pub struct HookReport {
    pub inline_hooks_by_section: Vec<SectionHooks>,
    pub syscall_routines_by_section: Vec<SectionHooks>,
}

/// The mathematical content of a [`HookReport`].
pub struct HookReportView {
    pub inline_hooks_by_section: Seq<SectionHooksView>,
    pub syscall_routines_by_section: Seq<SectionHooksView>,
}

impl View for HookReport {
    type V = HookReportView;

    open spec fn view(&self) -> HookReportView {
        HookReportView {
            inline_hooks_by_section: self.inline_hooks_by_section.deep_view(),
            syscall_routines_by_section: self.syscall_routines_by_section.deep_view(),
        }
    }
}

/// Whether a grouping is what a mapping from section names to hooks looks
/// like: no two groups share a name, and no group is empty.
pub open spec fn well_grouped(groups: Seq<SectionHooksView>) -> bool {
    &&& forall|i: int, j: int|
        0 <= i < j < groups.len() ==> (#[trigger] groups[i]).section != (
        #[trigger] groups[j]).section
    &&& forall|i: int| 0 <= i < groups.len() ==> (#[trigger] groups[i]).hooks.len() > 0
}

impl HookReportView {
    /// Whether both groupings of the report are well grouped.
    pub open spec fn wf(self) -> bool {
        well_grouped(self.inline_hooks_by_section) && well_grouped(
            self.syscall_routines_by_section,
        )
    }
}

/// The hook that stands for `bytes` captured at virtual address `address`:
/// both renderings are determined by the two.
pub open spec fn candidate(address: int, bytes: Seq<u8>) -> HookInfoView {
    HookInfoView {
        address,
        ida_address: display_address(address as nat),
        bytes,
        disassembly: disassembly_of(bytes, address as u64),
    }
}

/// Builds a hook from its address, its bytes and their decoded lines.
pub fn new_hook(address: usize, bytes: Vec<u8>, disassembly: Vec<String>) -> (hook: HookInfo)
    ensures
        hook@ == (HookInfoView {
            address: address as int,
            ida_address: display_address(address as nat),
            bytes: bytes@,
            disassembly: disassembly.deep_view(),
        }),
{
    let ida_address: String = format_address(address);
    HookInfo { address, ida_address, bytes, disassembly }
}

/// Builds the hook for `bytes` captured at `address`, decoding them on the
/// way.
pub fn capture_hook(address: usize, bytes: Vec<u8>) -> (hook: HookInfo)
    ensures
        hook@ == candidate(address as int, bytes@),
{
    let disassembly: Vec<String> = disassemble_bytes(bytes.as_slice(), address);
    new_hook(address, bytes, disassembly)
}

/// Copies the bytes of `buffer` from `start` up to `end`.
pub fn copy_window(buffer: &[u8], start: usize, end: usize) -> (bytes: Vec<u8>)
    requires
        start <= end <= buffer@.len(),
    ensures
        bytes@ == buffer@.subrange(start as int, end as int),
{
    let mut bytes: Vec<u8> = Vec::new();
    let mut i: usize = start;
    while i < end
        invariant
            start <= i <= end <= buffer@.len(),
            bytes@ =~= buffer@.subrange(start as int, i as int),
        decreases end - i,
    {
        bytes.push(buffer[i]);
        i += 1;
    }
    bytes
}

/// Index of the first group at or after `from` that is named `name`.
pub open spec fn group_index_from(groups: Seq<SectionHooksView>, name: Seq<char>, from: int)
    -> Option<int>
    decreases groups.len() - from,
{
    if from >= groups.len() {
        None
    } else if groups[from].section == name {
        Some(from)
    } else {
        group_index_from(groups, name, from + 1)
    }
}

/// Index of the group named `name`.
pub open spec fn group_index(groups: Seq<SectionHooksView>, name: Seq<char>) -> Option<int> {
    group_index_from(groups, name, 0)
}

/// `groups` after `hook` has been filed under `name`: appended to the group
/// of that name, or placed in a new group at the end if there is none yet.
pub open spec fn filed(groups: Seq<SectionHooksView>, name: Seq<char>, hook: HookInfoView) -> Seq<
    SectionHooksView,
> {
    match group_index(groups, name) {
        Some(index) => groups.update(
            index,
            SectionHooksView { section: name, hooks: groups[index].hooks.push(hook) },
        ),
        None => groups.push(SectionHooksView { section: name, hooks: seq![hook] }),
    }
}

/// The index found is that of the first group of the name; there is none
/// exactly when no group bears it.
pub proof fn lemma_group_index(groups: Seq<SectionHooksView>, name: Seq<char>, from: int)
    requires
        0 <= from,
    ensures
        group_index_from(groups, name, from) matches Some(index) ==> {
            &&& from <= index < groups.len()
            &&& groups[index].section == name
            &&& forall|j: int| from <= j < index ==> (#[trigger] groups[j]).section != name
        },
        group_index_from(groups, name, from) is None ==> forall|j: int|
            from <= j < groups.len() ==> (#[trigger] groups[j]).section != name,
    decreases groups.len() - from,
{
    if from < groups.len() && groups[from].section != name {
        lemma_group_index(groups, name, from + 1);
    }
}

/// Filing a hook keeps a grouping well grouped, adds exactly that hook, and
/// leaves the hooks already filed where they were.
pub proof fn lemma_filed(groups: Seq<SectionHooksView>, name: Seq<char>, hook: HookInfoView)
    requires
        well_grouped(groups),
    ensures
        well_grouped(filed(groups, name, hook)),
        group_index(filed(groups, name, hook), name) matches Some(index) && filed(
            groups,
            name,
            hook,
        )[index].hooks.last() == hook,
        forall|i: int|
            0 <= i < groups.len() ==> {
                &&& (#[trigger] filed(groups, name, hook)[i]).section == groups[i].section
                &&& groups[i].hooks.is_prefix_of(filed(groups, name, hook)[i].hooks)
            },
{
    let after = filed(groups, name, hook);
    lemma_group_index(groups, name, 0);
    lemma_group_index(after, name, 0);
    match group_index(groups, name) {
        Some(index) => {
            assert(after[index].section == name);
        },
        None => {
            assert(after[groups.len() as int].section == name);
        },
    }
}

/// Finds the group named `name`.
pub fn find_group(groups: &Vec<SectionHooks>, name: &String) -> (r: Option<usize>)
    ensures
        r is Some <==> group_index(groups.deep_view(), name@) is Some,
        r matches Some(index) ==> index < groups@.len() && group_index(groups.deep_view(), name@)
            == Some(index as int),
{
    let mut i: usize = 0;
    while i < groups.len()
        invariant
            i <= groups@.len(),
            groups.deep_view().len() == groups@.len(),
            group_index(groups.deep_view(), name@) == group_index_from(
                groups.deep_view(),
                name@,
                i as int,
            ),
        decreases groups@.len() - i,
    {
        assert(groups.deep_view()[i as int] == groups@[i as int]@);
        if groups[i].section == *name {
            return Some(i);
        }
        i += 1;
    }
    None
}

/// Files `hook` under the section named `section`, keeping the groups in
/// order of first discovery and the hooks of each group in order of
/// discovery.
pub fn file_hook(groups: &mut Vec<SectionHooks>, section: String, hook: HookInfo)
    ensures
        final(groups).deep_view() == filed(old(groups).deep_view(), section@, hook@),
        well_grouped(old(groups).deep_view()) ==> well_grouped(final(groups).deep_view()),
{
    let ghost before = groups.deep_view();
    let ghost earlier = groups@;
    let ghost added = hook@;
    proof {
        if well_grouped(before) {
            lemma_filed(before, section@, added);
        }
    }
    match find_group(groups, &section) {
        Some(index) => {
            proof {
                lemma_group_index(before, section@, 0);
            }
            assert(before[index as int] == earlier[index as int]@);
            groups[index].hooks.push(hook);
            assert(forall|j: int|
                0 <= j < earlier.len() && j != index ==> groups@[j] == earlier[j]);
            assert(groups@[index as int].hooks.deep_view() =~= earlier[index
                as int].hooks.deep_view().push(added));
            assert(groups.deep_view() =~= filed(before, section@, added));
        },
        None => {
            let mut hooks: Vec<HookInfo> = Vec::new();
            hooks.push(hook);
            assert(hooks.deep_view() =~= seq![added]);
            groups.push(SectionHooks { section, hooks });
            assert(groups.deep_view() =~= filed(before, section@, added));
        },
    }
}

/// What identifies a match: the file offset at which its window starts,
/// and the bytes of the window.
#[derive(Debug, Clone)]
pub struct DedupKey {
    pub raw_offset: usize,
    pub bytes: Vec<u8>,
}

impl View for DedupKey {
    type V = (int, Seq<u8>);

    open spec fn view(&self) -> (int, Seq<u8>) {
        (self.raw_offset as int, self.bytes@)
    }
}

/// The keys of the matches reported so far.
pub struct SeenKeys {
    keys: Vec<DedupKey>,
}

impl View for SeenKeys {
    type V = Set<(int, Seq<u8>)>;

    closed spec fn view(&self) -> Set<(int, Seq<u8>)> {
        Set::new(
            |key: (int, Seq<u8>)|
                exists|i: int| 0 <= i < self.keys@.len() && (#[trigger] self.keys@[i])@ == key,
        )
    }
}

/// Compares two byte strings.
pub fn same_bytes(left: &[u8], right: &[u8]) -> (r: bool)
    ensures
        r == (left@ == right@),
{
    if left.len() != right.len() {
        return false;
    }
    let mut i: usize = 0;
    while i < left.len()
        invariant
            i <= left@.len() == right@.len(),
            forall|j: int| 0 <= j < i ==> left@[j] == right@[j],
        decreases left@.len() - i,
    {
        if left[i] != right[i] {
            return false;
        }
        i += 1;
    }
    assert(left@ =~= right@);
    true
}

impl SeenKeys {
    /// No key has been seen.
    pub fn new() -> (seen: SeenKeys)
        ensures
            seen@ == Set::<(int, Seq<u8>)>::empty(),
    {
        let seen = SeenKeys { keys: Vec::new() };
        assert(seen@ =~= Set::<(int, Seq<u8>)>::empty());
        seen
    }

    /// Whether `key` has been seen.
    pub fn contains(&self, key: &DedupKey) -> (r: bool)
        ensures
            r == self@.contains(key@),
    {
        let mut i: usize = 0;
        while i < self.keys.len()
            invariant
                i <= self.keys@.len(),
                forall|j: int| 0 <= j < i ==> (#[trigger] self.keys@[j])@ != key@,
            decreases self.keys@.len() - i,
        {
            if self.keys[i].raw_offset == key.raw_offset && same_bytes(
                self.keys[i].bytes.as_slice(),
                key.bytes.as_slice(),
            ) {
                return true;
            }
            i += 1;
        }
        false
    }

    /// Records `key`, and tells whether it was new.
    pub fn insert(&mut self, key: DedupKey) -> (fresh: bool)
        ensures
            fresh == !old(self)@.contains(key@),
            final(self)@ == old(self)@.insert(key@),
    {
        let ghost before = self.keys@;
        if self.contains(&key) {
            assert(self@ =~= self@.insert(key@));
            return false;
        }
        self.keys.push(key);
        assert(self@ =~= old(self)@.insert(key@)) by {
            assert forall|k: (int, Seq<u8>)| old(self)@.insert(key@).contains(k) implies self@.contains(
                k,
            ) by {
                if k == key@ {
                    assert(self.keys@[before.len() as int]@ == k);
                } else {
                    let i = choose|i: int| 0 <= i < before.len() && (#[trigger] before[i])@ == k;
                    assert(self.keys@[i]@ == k);
                }
            }
        }
        true
    }
}

/// Where a scan stands: the cursor, the keys of what has been reported, and
/// the report so far.
pub struct ScanState {
    pub cursor: int,
    pub seen: Set<(int, Seq<u8>)>,
    pub report: HookReportView,
}

/// The state in which every scan begins.
pub open spec fn initial_state() -> ScanState {
    ScanState {
        cursor: 0,
        seen: Set::empty(),
        report: HookReportView {
            inline_hooks_by_section: Seq::empty(),
            syscall_routines_by_section: Seq::empty(),
        },
    }
}

/// The bytes captured for an inline hook at `offset`: thirty-two of them, or
/// as many as the buffer has left.
pub open spec fn inline_window(buf: Seq<u8>, offset: int) -> Seq<u8> {
    buf.subrange(
        offset,
        if offset + INLINE_WINDOW <= buf.len() {
            offset + INLINE_WINDOW
        } else {
            buf.len() as int
        },
    )
}

/// The address under which the window `bytes` at file offset `raw` is
/// reported, if it is: the offset must translate, and the window must not
/// have been reported at that offset before.
pub open spec fn accepted(
    sections: Seq<SectionView>,
    image_base: int,
    seen: Set<(int, Seq<u8>)>,
    raw: int,
    bytes: Seq<u8>,
) -> Option<int> {
    match raw_to_virtual(sections, raw, image_base) {
        Some(address) => if seen.contains((raw, bytes)) {
            None
        } else {
            Some(address)
        },
        None => None,
    }
}

/// One step of the scan.
///
/// A syscall trampoline around the cursor is looked for first. If there is
/// one, it is reported when accepted, and the cursor moves to its end either
/// way. Otherwise an inline hook at the cursor is reported when accepted, and
/// the cursor then moves on by [`INLINE_ADVANCE`]. In every other case the
/// cursor moves on by one.
pub open spec fn scan_step(
    buf: Seq<u8>,
    sections: Seq<SectionView>,
    image_base: int,
    state: ScanState,
) -> ScanState {
    let at = state.cursor;
    match syscall_bounds(buf, at) {
        Some((start, end)) => {
            let bytes = buf.subrange(start, end);
            match accepted(sections, image_base, state.seen, start, bytes) {
                Some(address) => ScanState {
                    cursor: end,
                    seen: state.seen.insert((start, bytes)),
                    report: HookReportView {
                        inline_hooks_by_section: state.report.inline_hooks_by_section,
                        syscall_routines_by_section: filed(
                            state.report.syscall_routines_by_section,
                            section_name_for(sections, address),
                            candidate(address, bytes),
                        ),
                    },
                },
                None => ScanState { cursor: end, seen: state.seen, report: state.report },
            }
        },
        None => {
            let bytes = inline_window(buf, at);
            if inline_hook_at(buf, at) && accepted(sections, image_base, state.seen, at, bytes)
                is Some {
                let address = accepted(sections, image_base, state.seen, at, bytes)->0;
                ScanState {
                    cursor: at + INLINE_ADVANCE,
                    seen: state.seen.insert((at, bytes)),
                    report: HookReportView {
                        inline_hooks_by_section: filed(
                            state.report.inline_hooks_by_section,
                            section_name_for(sections, address),
                            candidate(address, bytes),
                        ),
                        syscall_routines_by_section: state.report.syscall_routines_by_section,
                    },
                }
            } else {
                ScanState { cursor: at + 1, seen: state.seen, report: state.report }
            }
        },
    }
}

/// The number of bytes at and after the cursor.
pub open spec fn unscanned(buf: Seq<u8>, cursor: int) -> int {
    if 0 <= cursor < buf.len() {
        buf.len() - cursor
    } else {
        0
    }
}

/// The state reached by stepping from `state` until the cursor has left the
/// buffer.
pub open spec fn scan_from(
    buf: Seq<u8>,
    sections: Seq<SectionView>,
    image_base: int,
    state: ScanState,
) -> ScanState
    decreases unscanned(buf, state.cursor),
    via scan_from_terminates
{
    if 0 <= state.cursor < buf.len() {
        scan_from(buf, sections, image_base, scan_step(buf, sections, image_base, state))
    } else {
        state
    }
}

#[via_fn]
proof fn scan_from_terminates(
    buf: Seq<u8>,
    sections: Seq<SectionView>,
    image_base: int,
    state: ScanState,
) {
    if 0 <= state.cursor < buf.len() {
        lemma_step_advances(buf, sections, image_base, state);
    }
}

/// The report of a whole scan.
pub open spec fn scan_report(buf: Seq<u8>, sections: Seq<SectionView>, image_base: int)
    -> HookReportView {
    scan_from(buf, sections, image_base, initial_state()).report
}

/// The base that addresses are translated with: the one the headers declare,
/// or the caller's when no headers were found.
pub open spec fn effective_base(base: usize, pe_info: Option<PEInfo>) -> int {
    match pe_info {
        Some(info) => info.image_base as int,
        None => base as int,
    }
}

/// Every step moves the cursor forward, and by no more than the search
/// window or the inline advance.
pub proof fn lemma_step_advances(
    buf: Seq<u8>,
    sections: Seq<SectionView>,
    image_base: int,
    state: ScanState,
)
    requires
        0 <= state.cursor < buf.len(),
    ensures
        state.cursor < scan_step(buf, sections, image_base, state).cursor <= state.cursor + 200,
{
    lemma_syscall_bounds(buf, state.cursor);
}

/// Considers the window `bytes` captured at file offset `raw`: if the offset
/// translates and the window has not been reported there before, the hook is
/// built and filed under the section that owns its address. Tells whether it
/// was.
pub fn report_match(
    groups: &mut Vec<SectionHooks>,
    seen: &mut SeenKeys,
    sections: &[Section],
    image_base: usize,
    raw: usize,
    bytes: Vec<u8>,
) -> (reported: bool)
    ensures
        reported == accepted(
            sections.deep_view(),
            image_base as int,
            old(seen)@,
            raw as int,
            bytes@,
        ) is Some,
        !reported ==> final(seen)@ == old(seen)@ && final(groups).deep_view() == old(
            groups,
        ).deep_view(),
        reported ==> final(seen)@ == old(seen)@.insert((raw as int, bytes@)),
        reported ==> final(groups).deep_view() == filed(
            old(groups).deep_view(),
            section_name_for(
                sections.deep_view(),
                accepted(sections.deep_view(), image_base as int, old(seen)@, raw as int, bytes@)->0,
            ),
            candidate(
                accepted(sections.deep_view(), image_base as int, old(seen)@, raw as int, bytes@)->0,
                bytes@,
            ),
        ),
{
    let address: usize = match va_from_raw_address(raw, sections, image_base) {
        Some(address) => address,
        None => {
            return false;
        },
    };
    let key = DedupKey { raw_offset: raw, bytes: copy_window(bytes.as_slice(), 0, bytes.len()) };
    assert(key@ == (raw as int, bytes@)) by {
        assert(bytes@.subrange(0, bytes@.len() as int) =~= bytes@);
    }
    if !seen.insert(key) {
        return false;
    }
    let section: String = find_section_name(sections, address);
    let hook: HookInfo = capture_hook(address, bytes);
    file_hook(groups, section, hook);
    true
}

/// Scans `buffer` from its first byte to its last and reports the syscall
/// trampolines and inline hooks found, grouped by section.
///
/// Addresses are translated with the image base that `pe_info` carries, or
/// with `base` when there is none. The scan never fails: a match whose
/// offset belongs to no section is passed over, and bytes that cannot be
/// decoded leave a hook with fewer display lines.
pub fn dump_hooks(buffer: &[u8], base: usize, sections: &[Section], pe_info: Option<PEInfo>) -> (report:
    HookReport)
    ensures
        report@ == scan_report(buffer@, sections.deep_view(), effective_base(base, pe_info)),
        report@.wf(),
{
    let image_base: usize = match pe_info {
        Some(info) => info.image_base,
        None => base,
    };
    let mut inline_groups: Vec<SectionHooks> = Vec::new();
    let mut syscall_groups: Vec<SectionHooks> = Vec::new();
    let mut seen: SeenKeys = SeenKeys::new();
    let mut cursor: usize = 0;
    let ghost mut state = initial_state();
    assert(inline_groups.deep_view() =~= state.report.inline_hooks_by_section);
    assert(syscall_groups.deep_view() =~= state.report.syscall_routines_by_section);
    while cursor < buffer.len()
        invariant
            image_base == effective_base(base, pe_info),
            0 <= state.cursor,
            cursor == if state.cursor < buffer@.len() {
                state.cursor
            } else {
                buffer@.len() as int
            },
            seen@ == state.seen,
            inline_groups.deep_view() == state.report.inline_hooks_by_section,
            syscall_groups.deep_view() == state.report.syscall_routines_by_section,
            scan_from(buffer@, sections.deep_view(), image_base as int, state) == scan_from(
                buffer@,
                sections.deep_view(),
                image_base as int,
                initial_state(),
            ),
        decreases buffer@.len() - cursor,
    {
        let ghost next = scan_step(buffer@, sections.deep_view(), image_base as int, state);
        proof {
            lemma_step_advances(buffer@, sections.deep_view(), image_base as int, state);
        }
        match is_syscall_routine(buffer, cursor) {
            Some((start, end)) => {
                let bytes: Vec<u8> = copy_window(buffer, start, end);
                report_match(&mut syscall_groups, &mut seen, sections, image_base, start, bytes);
                cursor = end;
            },
            None => {
                let mut advance: usize = 1;
                if is_inline_hook(buffer, cursor) {
                    let end: usize = if buffer.len() - cursor >= INLINE_WINDOW {
                        cursor + INLINE_WINDOW
                    } else {
                        buffer.len()
                    };
                    let bytes: Vec<u8> = copy_window(buffer, cursor, end);
                    if report_match(
                        &mut inline_groups,
                        &mut seen,
                        sections,
                        image_base,
                        cursor,
                        bytes,
                    ) {
                        advance = INLINE_ADVANCE;
                    }
                }
                cursor = if buffer.len() - cursor > advance {
                    cursor + advance
                } else {
                    buffer.len()
                };
            },
        }
        proof {
            state = next;
        }
    }
    proof {
        lemma_report_sound(buffer@, sections.deep_view(), image_base as int);
    }
    HookReport {
        inline_hooks_by_section: inline_groups,
        syscall_routines_by_section: syscall_groups,
    }
}

/// Whether `hook` is what an inline hook somewhere in the buffer is reported
/// as: the signature stands at a file offset that translates to the hook's
/// address, and the hook holds the window captured there.
pub open spec fn reports_inline_hook(
    buf: Seq<u8>,
    sections: Seq<SectionView>,
    image_base: int,
    hook: HookInfoView,
) -> bool {
    exists|raw: int|
        0 <= raw < buf.len() && #[trigger] inline_hook_at(buf, raw) && raw_to_virtual(
            sections,
            raw,
            image_base,
        ) == Some(hook.address) && hook == candidate(hook.address, inline_window(buf, raw))
}

/// Whether `hook` is what a syscall trampoline somewhere in the buffer is
/// reported as: the trampoline starts at a file offset that translates to
/// the hook's address, and the hook holds exactly the trampoline's bytes.
pub open spec fn reports_trampoline(
    buf: Seq<u8>,
    sections: Seq<SectionView>,
    image_base: int,
    hook: HookInfoView,
) -> bool {
    exists|at: int, start: int, end: int|
        0 <= at < buf.len() && #[trigger] trampoline_is(buf, at, start, end) && raw_to_virtual(
            sections,
            start,
            image_base,
        ) == Some(hook.address) && hook == candidate(hook.address, buf.subrange(start, end))
}

/// Whether the trampoline around a `syscall` at `at` spans `[start, end)`.
pub open spec fn trampoline_is(buf: Seq<u8>, at: int, start: int, end: int) -> bool {
    syscall_bounds(buf, at) == Some((start, end))
}

/// Whether a grouping is sound: it is well grouped, and every hook is
/// `justified` and filed under the section that owns its address.
pub open spec fn groups_sound(
    groups: Seq<SectionHooksView>,
    sections: Seq<SectionView>,
    justified: spec_fn(HookInfoView) -> bool,
) -> bool {
    &&& well_grouped(groups)
    &&& forall|i: int, k: int|
        0 <= i < groups.len() && 0 <= k < groups[i].hooks.len() ==> {
            &&& justified(#[trigger] groups[i].hooks[k])
            &&& groups[i].section == section_name_for(sections, groups[i].hooks[k].address)
        }
}

/// Whether every key seen lies behind the cursor: its window starts before
/// the cursor and ends at most one byte past it.
pub open spec fn keys_behind(seen: Set<(int, Seq<u8>)>, cursor: int) -> bool {
    forall|key: (int, Seq<u8>)| #[trigger]
        seen.contains(key) ==> key.0 < cursor && key.0 + key.1.len() <= cursor + 1
}

/// What holds of a scan at every step: the keys seen lie behind the cursor,
/// and both groupings are well formed.
pub open spec fn scan_sound(
    buf: Seq<u8>,
    sections: Seq<SectionView>,
    image_base: int,
    state: ScanState,
) -> bool {
    &&& 0 <= state.cursor
    &&& keys_behind(state.seen, state.cursor)
    &&& groups_sound(
        state.report.inline_hooks_by_section,
        sections,
        |hook: HookInfoView| reports_inline_hook(buf, sections, image_base, hook),
    )
    &&& groups_sound(
        state.report.syscall_routines_by_section,
        sections,
        |hook: HookInfoView| reports_trampoline(buf, sections, image_base, hook),
    )
}

/// Filing a justified hook under the section that owns its address keeps a
/// grouping well formed.
pub proof fn lemma_filed_sound(
    groups: Seq<SectionHooksView>,
    sections: Seq<SectionView>,
    justified: spec_fn(HookInfoView) -> bool,
    hook: HookInfoView,
)
    requires
        groups_sound(groups, sections, justified),
        justified(hook),
    ensures
        groups_sound(
            filed(groups, section_name_for(sections, hook.address), hook),
            sections,
            justified,
        ),
{
    let name = section_name_for(sections, hook.address);
    let after = filed(groups, name, hook);
    lemma_group_index(groups, name, 0);
    match group_index(groups, name) {
        Some(index) => {
            assert forall|i: int, k: int|
                0 <= i < after.len() && 0 <= k < after[i].hooks.len() implies {
                &&& justified(#[trigger] after[i].hooks[k])
                &&& after[i].section == section_name_for(sections, after[i].hooks[k].address)
            } by {
                if i == index && k < groups[index].hooks.len() {
                    assert(after[i].hooks[k] == groups[i].hooks[k]);
                } else if i != index {
                    assert(after[i].hooks[k] == groups[i].hooks[k]);
                }
            }
        },
        None => {
            assert forall|i: int, k: int|
                0 <= i < after.len() && 0 <= k < after[i].hooks.len() implies {
                &&& justified(#[trigger] after[i].hooks[k])
                &&& after[i].section == section_name_for(sections, after[i].hooks[k].address)
            } by {
                if i < groups.len() {
                    assert(after[i].hooks[k] == groups[i].hooks[k]);
                }
            }
        },
    }
}

/// Within one scan no window is met twice at the same offset: whatever the
/// step at the cursor finds is not among the keys seen. So every match whose
/// offset translates is reported, and an inline hook always moves the cursor
/// on by the full advance.
pub proof fn lemma_matches_are_fresh(buf: Seq<u8>, seen: Set<(int, Seq<u8>)>, cursor: int)
    requires
        0 <= cursor < buf.len(),
        keys_behind(seen, cursor),
    ensures
        syscall_bounds(buf, cursor) matches Some((start, end)) ==> !seen.contains(
            (start, buf.subrange(start, end)),
        ),
        !seen.contains((cursor, inline_window(buf, cursor))),
{
    lemma_syscall_bounds(buf, cursor);
}

/// A step keeps a scan sound.
pub proof fn lemma_step_sound(
    buf: Seq<u8>,
    sections: Seq<SectionView>,
    image_base: int,
    state: ScanState,
)
    requires
        0 <= state.cursor < buf.len(),
        scan_sound(buf, sections, image_base, state),
    ensures
        scan_sound(buf, sections, image_base, scan_step(buf, sections, image_base, state)),
{
    let at = state.cursor;
    let next = scan_step(buf, sections, image_base, state);
    let inline_ok = |hook: HookInfoView| reports_inline_hook(buf, sections, image_base, hook);
    let trampoline_ok = |hook: HookInfoView| reports_trampoline(buf, sections, image_base, hook);
    lemma_syscall_bounds(buf, at);
    lemma_step_advances(buf, sections, image_base, state);
    match syscall_bounds(buf, at) {
        Some((start, end)) => {
            let bytes = buf.subrange(start, end);
            match accepted(sections, image_base, state.seen, start, bytes) {
                Some(address) => {
                    let hook = candidate(address, bytes);
                    assert(trampoline_is(buf, at, start, end));
                    assert(trampoline_ok(hook));
                    lemma_filed_sound(
                        state.report.syscall_routines_by_section,
                        sections,
                        trampoline_ok,
                        hook,
                    );
                },
                None => {},
            }
        },
        None => {
            let bytes = inline_window(buf, at);
            if inline_hook_at(buf, at) && accepted(sections, image_base, state.seen, at, bytes)
                is Some {
                let address = accepted(sections, image_base, state.seen, at, bytes)->0;
                let hook = candidate(address, bytes);
                assert(inline_ok(hook));
                lemma_filed_sound(state.report.inline_hooks_by_section, sections, inline_ok, hook);
            }
        },
    }
}

/// A sound scan stays sound to its end.
pub proof fn lemma_scan_sound(
    buf: Seq<u8>,
    sections: Seq<SectionView>,
    image_base: int,
    state: ScanState,
)
    requires
        scan_sound(buf, sections, image_base, state),
    ensures
        scan_sound(buf, sections, image_base, scan_from(buf, sections, image_base, state)),
    decreases unscanned(buf, state.cursor),
{
    if 0 <= state.cursor < buf.len() {
        lemma_step_advances(buf, sections, image_base, state);
        lemma_step_sound(buf, sections, image_base, state);
        lemma_scan_sound(buf, sections, image_base, scan_step(buf, sections, image_base, state));
    }
}

/// What every report holds. Each inline hook is the window at an offset
/// where the signature stands, each syscall routine is exactly the bytes of
/// a trampoline, the address of each is the translation of the offset its
/// bytes were taken from, and each is filed under the section that owns
/// that address. No section appears twice in a grouping, and none without a
/// hook.
pub proof fn lemma_report_sound(buf: Seq<u8>, sections: Seq<SectionView>, image_base: int)
    ensures
        groups_sound(
            scan_report(buf, sections, image_base).inline_hooks_by_section,
            sections,
            |hook: HookInfoView| reports_inline_hook(buf, sections, image_base, hook),
        ),
        groups_sound(
            scan_report(buf, sections, image_base).syscall_routines_by_section,
            sections,
            |hook: HookInfoView| reports_trampoline(buf, sections, image_base, hook),
        ),
{
    lemma_scan_sound(buf, sections, image_base, initial_state());
}

/// Whether the scan finds nothing at any cursor position from `from` up to
/// `to`: no trampoline around it and no inline signature at it.
pub open spec fn quiet(buf: Seq<u8>, from: int, to: int) -> bool {
    forall|k: int|
        from <= k < to ==> (#[trigger] syscall_bounds(buf, k)) is None && !inline_hook_at(buf, k)
}

/// `state` with its cursor moved to `cursor`.
pub open spec fn moved_to(state: ScanState, cursor: int) -> ScanState {
    ScanState { cursor, seen: state.seen, report: state.report }
}

/// The last two positions of a buffer are always quiet: neither pattern
/// fits there.
pub proof fn lemma_tail_is_quiet(buf: Seq<u8>, from: int)
    requires
        0 <= from,
        from + 2 >= buf.len(),
    ensures
        quiet(buf, from, buf.len() as int),
{
    assert forall|k: int| from <= k < buf.len() implies (#[trigger] syscall_bounds(buf, k))
        is None && !inline_hook_at(buf, k) by {
        lemma_syscall_bounds(buf, k);
    }
}

/// The scan walks through a quiet stretch without seeing or reporting
/// anything.
pub proof fn lemma_quiet_stretch(
    buf: Seq<u8>,
    sections: Seq<SectionView>,
    image_base: int,
    state: ScanState,
    to: int,
)
    requires
        0 <= state.cursor <= to <= buf.len(),
        quiet(buf, state.cursor, to),
    ensures
        scan_from(buf, sections, image_base, state) == scan_from(
            buf,
            sections,
            image_base,
            moved_to(state, to),
        ),
    decreases to - state.cursor,
{
    if state.cursor < to {
        assert(syscall_bounds(buf, state.cursor) is None);
        let next = scan_step(buf, sections, image_base, state);
        assert(next == moved_to(state, state.cursor + 1));
        lemma_quiet_stretch(buf, sections, image_base, next, to);
        assert(moved_to(next, to) == moved_to(state, to));
    } else {
        assert(moved_to(state, to) == state);
    }
}

/// A report that holds nothing but `hook`, filed under `section`, in the
/// inline grouping.
pub open spec fn lone_inline_hook(section: Seq<char>, hook: HookInfoView) -> HookReportView {
    HookReportView {
        inline_hooks_by_section: seq![SectionHooksView { section, hooks: seq![hook] }],
        syscall_routines_by_section: Seq::empty(),
    }
}

/// A report that holds nothing but `hook`, filed under `section`, in the
/// syscall grouping.
pub open spec fn lone_trampoline(section: Seq<char>, hook: HookInfoView) -> HookReportView {
    HookReportView {
        inline_hooks_by_section: Seq::empty(),
        syscall_routines_by_section: seq![SectionHooksView { section, hooks: seq![hook] }],
    }
}

/// A buffer that is quiet but for one inline signature, at an offset that
/// translates, yields exactly one hook: the window captured at that offset,
/// at the offset's virtual address, under the section that owns the address.
///
/// What follows the signature inside the window is never looked at, and a
/// buffer that ends with the window needs no further condition.
pub proof fn lemma_lone_inline_hook(
    buf: Seq<u8>,
    sections: Seq<SectionView>,
    image_base: int,
    offset: int,
)
    requires
        0 <= offset,
        inline_hook_at(buf, offset),
        quiet(buf, 0, offset),
        syscall_bounds(buf, offset) is None,
        raw_to_virtual(sections, offset, image_base) is Some,
        buf.len() <= offset + INLINE_WINDOW || quiet(
            buf,
            offset + INLINE_ADVANCE,
            buf.len() as int,
        ),
    ensures
        scan_report(buf, sections, image_base) == lone_inline_hook(
            section_name_for(sections, raw_to_virtual(sections, offset, image_base)->0),
            candidate(
                raw_to_virtual(sections, offset, image_base)->0,
                inline_window(buf, offset),
            ),
        ),
{
    let address = raw_to_virtual(sections, offset, image_base)->0;
    let start = initial_state();
    lemma_quiet_stretch(buf, sections, image_base, start, offset);
    let here = moved_to(start, offset);
    let after = scan_step(buf, sections, image_base, here);
    let hook = candidate(address, inline_window(buf, offset));
    let section = section_name_for(sections, address);
    assert(after.report.inline_hooks_by_section =~= seq![
        SectionHooksView { section, hooks: seq![hook] },
    ]);
    assert(after.report == lone_inline_hook(section, hook));
    if after.cursor < buf.len() {
        if buf.len() <= offset + INLINE_WINDOW {
            lemma_tail_is_quiet(buf, after.cursor);
        }
        lemma_quiet_stretch(buf, sections, image_base, after, buf.len() as int);
    }
}

/// A buffer that is quiet but for one syscall trampoline, starting at an
/// offset that translates, yields exactly one hook: the bytes of the
/// trampoline, at the virtual address of its start, under the section that
/// owns the address. The bytes hold the `syscall` instruction itself.
pub proof fn lemma_lone_trampoline(
    buf: Seq<u8>,
    sections: Seq<SectionView>,
    image_base: int,
    at: int,
    start: int,
    end: int,
)
    requires
        0 <= at,
        quiet(buf, 0, at),
        syscall_bounds(buf, at) == Some((start, end)),
        raw_to_virtual(sections, start, image_base) is Some,
        quiet(buf, end, buf.len() as int),
    ensures
        scan_report(buf, sections, image_base) == lone_trampoline(
            section_name_for(sections, raw_to_virtual(sections, start, image_base)->0),
            candidate(raw_to_virtual(sections, start, image_base)->0, buf.subrange(start, end)),
        ),
        buf.subrange(start, end)[at - start] == 0x0F,
        buf.subrange(start, end)[at - start + 1] == 0x05,
{
    let address = raw_to_virtual(sections, start, image_base)->0;
    lemma_syscall_bounds(buf, at);
    let begin = initial_state();
    lemma_quiet_stretch(buf, sections, image_base, begin, at);
    let here = moved_to(begin, at);
    let after = scan_step(buf, sections, image_base, here);
    let hook = candidate(address, buf.subrange(start, end));
    let section = section_name_for(sections, address);
    assert(after.report.syscall_routines_by_section =~= seq![
        SectionHooksView { section, hooks: seq![hook] },
    ]);
    assert(after.report == lone_trampoline(section, hook));
    lemma_quiet_stretch(buf, sections, image_base, after, buf.len() as int);
}

} // verus!
