//! The archive writer: lays out objects, properties, samples, headers and
//! the archive tables in an archive image, then freezes it.
//!
//! The digests of the samples and the hashes of the object headers are
//! given by the caller, one digest per sample and one pair of hashes per
//! object, in trees shaped like the properties and objects they belong to.

use vstd::prelude::*;
use vstd::string::*;
use crate::ogawa::format::{group_offset_of, data_offset_of, make_group_offset, make_data_offset};
use crate::ogawa::writer::headers::{
    MetadataIndex, PropertySampleState, serialize_property_headers, table_wf, table_add, md_text, copied_table,
    serialize_object_headers_with_hash, object_headers_encoding, object_inputs, hash_suffix, header_inputs,
    headers_encoding,
};
use crate::ogawa::writer::image::{
    ArchiveImage, ImageView, ContentKey, fits, counts_fit, group_block, initial_image, raised_max,
    sampling_index, keyed_write, data_write, data_block, words, lemma_keyed_write_growth,
    lemma_data_write_growth, frozen_bytes, stored_position,
};
use crate::ogawa::writer::time_table::{samplings_bytes, storable_samplings, lemma_time_samplings_roundtrip};
use crate::ogawa::read_util::parse_time_samplings_from;
use crate::ogawa::reader::{magic_bytes, GroupView, group_read, group_readable, child_offset_of, u64_at};
use crate::ogawa::archive_reader::{child_block, root_kinds_ok, i32_of, child_is_data, block_readable, block_size, object_readable, compound_readable, archive_root_readable, archive_file_readable, MIN_ALEMBIC_VERSION, ALEMBIC_OGAWA_FILE_VERSION, resolved_index};
use crate::ogawa::read_util::{parse_object_headers, ObjectHeaderView};
use crate::ogawa::format::{offset_position, position_range, lemma_child_offset_roundtrip};
use crate::ogawa::writer::roundtrip::{
    lemma_group_reads_back, lemma_data_reads_back, table_prefix, lemma_table_prefix_refl, lemma_table_prefix_trans,
    lemma_headers_encoding_prefix, lemma_object_encoding_prefix, header_block_at, lemma_header_block_extends,
    object_fits, object_view, lemma_object_children_read_back, header_fits, header_view_of,
    lemma_property_headers_roundtrip, lemma_parse_properties_prefix,
};
use crate::ogawa::read_util::{parse_property_headers_from, PropertyHeaderView, PropertyType};
use crate::ogawa::writer::headers::{header_input, byte_len, header_info, header_bytes};
use crate::ogawa::writer::room::{
    lemma_scalar_run_room, lemma_array_run_room, lemma_change_order, lemma_run_children_len, headers_room,
    lemma_headers_encoding_len, objects_room, lemma_object_headers_len, table_room, lemma_table_room,
    lemma_samplings_len, lemma_scalar_room_nonneg, lemma_array_room_nonneg,
};
use crate::ogawa::read_util::parse_indexed_metadata;
use crate::ogawa::le::{le_value, le_bytes};
use crate::ogawa::writer::image::initial_header;
use crate::ogawa::writer::schema::util::{i32_le, i32_le_bytes};
use crate::ogawa::writer::write_util::{format_alembic_version, alembic_version_text};
use crate::ogawa::writer::headers::{table_bytes, lemma_indexed_metadata_roundtrip};
use crate::util::metadata::{metadata_text, is_first_key_index};
use crate::util::pod::PlainOldDataType;
use crate::ogawa::read_util::{TimeSamplingRecord, record_view};
use crate::ogawa::writer::samples::{sample_key, key_tag, key_tag_of};
use crate::ogawa::writer::write_util::encode_sample_for_pod;
use vstd::utf8::{encode_utf8, decode_utf8};
use crate::ogawa::writer::object::OObject;
use crate::ogawa::writer::schema::order::{stable_order_u32, positions};
use crate::ogawa::writer::property::{OProperty, OPropertyData, sample_count};
use crate::ogawa::writer::samples::{
    collect_scalar_samples, collect_array_samples, scalar_room, sample_views, array_room,
    array_datas, array_dims, points_fit, scalar_run, array_run, changed_at, sample_keys,
    last_change, max_samples_for, stores_dims, dims_u64, first_change, run_children, homogeneous, flat,
};
use crate::ogawa::writer::write_util::encoded_sample;
use crate::util::error::Error;
use crate::util::metadata::{MetaData, metadata_pairs, pairs_with};

verus! {

/// The digests of a property's samples: one per sample for a scalar or
/// array property, one tree per child for a compound.
pub enum SampleDigests {
    Samples(Vec<(u64, u64)>),
    Children(Vec<SampleDigests>),
}

/// The digests of an object: those of its properties, the hash of its
/// property data and of its children (stored in its header block), and
/// those of its child objects.
pub struct ObjectDigests {
    pub properties: Vec<SampleDigests>,
    pub data_hash: (u64, u64),
    pub child_hash: (u64, u64),
    pub children: Vec<ObjectDigests>,
}

/// The digests describe a property (one per sample, one tree per child),
/// and the element count of every array sample fits a `usize`.
pub open spec fn digests_fit(p: OProperty, d: SampleDigests) -> bool
    decreases p, 0nat,
{
    match p.data {
        OPropertyData::Scalar(s) => d matches SampleDigests::Samples(ds) && ds@.len() == s@.len(),
        OPropertyData::Array(s) => d matches SampleDigests::Samples(ds) && ds@.len() == s@.len() && (forall|i: int|
            0 <= i < s@.len() ==> points_fit(#[trigger] s@[i].1@, p.data_type.extent)),
        OPropertyData::Compound(cs) => match d {
            SampleDigests::Children(dcs) => dcs@.len() == cs@.len() && all_digests_fit(cs@, dcs@, cs@.len()),
            _ => false,
        },
    }
}

/// The first `n` digest trees describe the first `n` properties.
pub open spec fn all_digests_fit(ps: Seq<OProperty>, ds: Seq<SampleDigests>, n: nat) -> bool
    decreases ps, n,
{
    if n == 0 || n > ps.len() || n > ds.len() {
        n == 0
    } else {
        all_digests_fit(ps, ds, (n - 1) as nat) && digests_fit(ps[n - 1], ds[n - 1])
    }
}

/// The digests describe an object: its properties' and its children's.
pub open spec fn object_digests_fit(o: OObject, d: ObjectDigests) -> bool
    decreases o, 0nat,
{
    &&& d.properties@.len() == o.properties@.len()
    &&& all_digests_fit(o.properties@, d.properties@, o.properties@.len())
    &&& d.children@.len() == o.children@.len()
    &&& all_object_digests_fit(o.children@, d.children@, o.children@.len())
}

/// The first `n` digest trees describe the first `n` objects.
pub open spec fn all_object_digests_fit(os: Seq<OObject>, ds: Seq<ObjectDigests>, n: nat) -> bool
    decreases os, n,
{
    if n == 0 || n > os.len() || n > ds.len() {
        n == 0
    } else {
        all_object_digests_fit(os, ds, (n - 1) as nat) && object_digests_fit(os[n - 1], ds[n - 1])
    }
}

proof fn lemma_all_object_digests_fit(os: Seq<OObject>, ds: Seq<ObjectDigests>, n: nat, i: int)
    requires
        all_object_digests_fit(os, ds, n),
        0 <= i < n,
    ensures
        object_digests_fit(os[i], ds[i]),
    decreases n,
{
    if i < n - 1 {
        lemma_all_object_digests_fit(os, ds, (n - 1) as nat, i);
    }
}

proof fn lemma_all_digests_fit(ps: Seq<OProperty>, ds: Seq<SampleDigests>, n: nat, i: int)
    requires
        all_digests_fit(ps, ds, n),
        0 <= i < n,
    ensures
        digests_fit(ps[i], ds[i]),
    decreases n,
{
    if i < n - 1 {
        lemma_all_digests_fit(ps, ds, (n - 1) as nat, i);
    }
}

/// The state of an archive writer as mathematical values.
pub struct ArchiveState {
    /// The archive image.
    pub image: ImageView,
    /// The indexed metadata table.
    pub table: Seq<Seq<char>>,
    /// The archive's name (its path).
    pub name: Seq<char>,
    /// Archive metadata stored at freezing.
    pub archive_metadata: Seq<(Seq<char>, Seq<char>)>,
    /// The application writer text.
    pub application_writer: Seq<char>,
    /// Compression hint, -1 (none) to 9.
    pub compression_hint: i32,
    /// Library version written into the archive.
    pub library_version: i32,
    /// Keep the archive metadata's version entry when set from a copy.
    pub preserve_archive_metadata: bool,
    /// Build date and time in the library version text.
    pub build_date: Seq<char>,
    pub build_time: Seq<char>,
}

/// An Ogawa archive being written.
pub struct OArchive {
    name: String,
    image: ArchiveImage,
    index: MetadataIndex,
    archive_metadata: MetaData,
    application_writer: String,
    compression_hint: i32,
    library_version: i32,
    preserve_archive_metadata: bool,
    build_date: String,
    build_time: String,
}

impl View for OArchive {
    type V = ArchiveState;

    closed spec fn view(&self) -> ArchiveState {
        ArchiveState {
            image: self.image@,
            table: self.index@,
            name: self.name@,
            archive_metadata: metadata_pairs(self.archive_metadata),
            application_writer: self.application_writer@,
            compression_hint: self.compression_hint,
            library_version: self.library_version,
            preserve_archive_metadata: self.preserve_archive_metadata,
            build_date: self.build_date@,
            build_time: self.build_time@,
        }
    }
}

/// A writer is well formed: its metadata table is, its time samplings'
/// counts fit, and its image holds at least the header.
pub open spec fn archive_wf(a: ArchiveState) -> bool {
    &&& table_wf(a.table)
    &&& counts_fit(a.image)
    &&& a.image.bytes.len() >= 16
}

/// Two writer states agree on everything but the image and the metadata
/// table.
pub open spec fn same_settings(a: ArchiveState, b: ArchiveState) -> bool {
    &&& a.name == b.name
    &&& a.archive_metadata == b.archive_metadata
    &&& a.application_writer == b.application_writer
    &&& a.compression_hint == b.compression_hint
    &&& a.library_version == b.library_version
    &&& a.preserve_archive_metadata == b.preserve_archive_metadata
    &&& a.build_date == b.build_date
    &&& a.build_time == b.build_time
}

/// The library version this library writes (1.8.10).
pub const ALEMBIC_LIBRARY_VERSION: i32 = 10810;

/// The Ogawa file version stored in every archive.
pub const OGAWA_FILE_VERSION: i32 = 0;

/// The writer state just after `create`.
pub open spec fn created_state(name: Seq<char>) -> ArchiveState {
    ArchiveState {
        image: initial_image(),
        table: seq![Seq::<char>::empty()],
        name: name,
        archive_metadata: Seq::empty(),
        application_writer: Seq::empty(),
        compression_hint: -1i32,
        library_version: ALEMBIC_LIBRARY_VERSION,
        preserve_archive_metadata: false,
        build_date: "unknown"@,
        build_time: "unknown"@,
    }
}

impl OArchive {
    /// Start writing an archive called `name`: the header, the identity
    /// time sampling, an empty metadata table, sharing of identical samples
    /// on, no compression, library version 1.8.10.
    pub fn create(name: &str) -> (r: Self)
        ensures
            r@ == created_state(name@),
            archive_wf(r@),
    {
        let r = OArchive {
            name: name.to_owned(),
            image: ArchiveImage::create(),
            index: MetadataIndex::new(),
            archive_metadata: MetaData::new(),
            application_writer: String::new(),
            compression_hint: -1,
            library_version: ALEMBIC_LIBRARY_VERSION,
            preserve_archive_metadata: false,
            build_date: "unknown".to_owned(),
            build_time: "unknown".to_owned(),
        };
        proof {
            reveal_strlit("unknown");
            assert(initial_image().bytes.len() == 16) by {
                crate::ogawa::le::lemma_le_bytes_len(0, 8);
            }
            assert(counts_fit(initial_image()));
        }
        r
    }

    /// The archive's name.
    pub fn name(&self) -> (r: &str)
        ensures
            r@ == self@.name,
    {
        self.name.as_str()
    }

    /// The archive's name.
    #[allow(non_snake_case)]
    pub fn getName(&self) -> (r: &str)
        ensures
            r@ == self@.name,
    {
        self.name.as_str()
    }

    /// The archive image written so far.
    pub fn image(&self) -> (r: &ArchiveImage)
        ensures
            r@ == self@.image,
    {
        &self.image
    }

    /// Whether the archive has been frozen.
    pub fn is_frozen(&self) -> (r: bool)
        ensures
            r == self@.image.frozen,
    {
        self.image.is_frozen()
    }

    /// Turn sharing of identical samples on or off.
    #[allow(non_snake_case)]
    pub fn setDedupEnabled(&mut self, enabled: bool)
        ensures
            final(self)@ == (ArchiveState {
                image: ImageView { dedup_enabled: enabled, ..old(self)@.image },
                ..old(self)@
            }),
    {
        self.image.setDedupEnabled(enabled);
    }

    /// Whether identical samples share one data block.
    #[allow(non_snake_case)]
    pub fn isDedupEnabled(&self) -> (r: bool)
        ensures
            r == self@.image.dedup_enabled,
    {
        self.image.isDedupEnabled()
    }

    /// Number of samples recorded for sharing.
    pub fn dedup_count(&self) -> (r: usize)
        ensures
            r == self@.image.stored.len(),
    {
        self.image.dedup_count()
    }

    /// Set the application writer text.
    pub fn set_application_writer(&mut self, writer: &str)
        ensures
            final(self)@ == (ArchiveState { application_writer: writer@, ..old(self)@ }),
    {
        self.application_writer = writer.to_owned();
    }

    /// The application writer text.
    pub fn application_writer(&self) -> (r: &str)
        ensures
            r@ == self@.application_writer,
    {
        self.application_writer.as_str()
    }

    /// Set the compression hint, clamped to -1 (none) .. 9.
    #[allow(non_snake_case)]
    pub fn setCompressionHint(&mut self, hint: i32)
        ensures
            final(self)@ == (ArchiveState {
                compression_hint: if hint < -1 {
                    -1i32
                } else if hint > 9 {
                    9i32
                } else {
                    hint
                },
                ..old(self)@
            }),
    {
        self.compression_hint = if hint < -1 {
            -1
        } else if hint > 9 {
            9
        } else {
            hint
        };
    }

    /// The compression hint.
    #[allow(non_snake_case)]
    pub fn getCompressionHint(&self) -> (r: i32)
        ensures
            r == self@.compression_hint,
    {
        self.compression_hint
    }

    /// Set the library version to write.
    pub fn set_library_version(&mut self, version: i32)
        ensures
            final(self)@ == (ArchiveState { library_version: version, ..old(self)@ }),
    {
        self.library_version = version;
    }

    /// The library version to write.
    pub fn library_version(&self) -> (r: i32)
        ensures
            r == self@.library_version,
    {
        self.library_version
    }

    /// Set the build date and time shown in the library version text.
    pub fn set_build_stamp(&mut self, date: &str, time: &str)
        ensures
            final(self)@ == (ArchiveState { build_date: date@, build_time: time@, ..old(self)@ }),
    {
        self.build_date = date.to_owned();
        self.build_time = time.to_owned();
    }

    /// Replace the archive metadata (as when copying an archive): the
    /// application writer is cleared and the metadata's version entry kept.
    pub fn set_archive_metadata(&mut self, md: MetaData)
        ensures
            final(self)@ == (ArchiveState {
                archive_metadata: metadata_pairs(md),
                application_writer: Seq::empty(),
                preserve_archive_metadata: true,
                ..old(self)@
            }),
    {
        self.archive_metadata = md;
        self.application_writer = String::new();
        self.preserve_archive_metadata = true;
    }

    fn set_meta(&mut self, key: &str, value: &str)
        ensures
            final(self)@ == (ArchiveState {
                archive_metadata: pairs_with(old(self)@.archive_metadata, key@, value@),
                ..old(self)@
            }),
    {
        self.archive_metadata.set(key, value);
    }

    /// Set the application name (`_ai_Application`).
    #[allow(non_snake_case)]
    pub fn setAppName(&mut self, name: &str)
        ensures
            final(self)@ == (ArchiveState {
                archive_metadata: pairs_with(old(self)@.archive_metadata, "_ai_Application"@, name@),
                ..old(self)@
            }),
    {
        self.set_meta("_ai_Application", name);
    }

    /// Set the date written (`_ai_DateWritten`).
    #[allow(non_snake_case)]
    pub fn setDateWritten(&mut self, date: &str)
        ensures
            final(self)@ == (ArchiveState {
                archive_metadata: pairs_with(old(self)@.archive_metadata, "_ai_DateWritten"@, date@),
                ..old(self)@
            }),
    {
        self.set_meta("_ai_DateWritten", date);
    }

    /// Set the user description (`_ai_Description`).
    #[allow(non_snake_case)]
    pub fn setUserDescription(&mut self, desc: &str)
        ensures
            final(self)@ == (ArchiveState {
                archive_metadata: pairs_with(old(self)@.archive_metadata, "_ai_Description"@, desc@),
                ..old(self)@
            }),
    {
        self.set_meta("_ai_Description", desc);
    }

    /// Set the DCC name (`_ai_DCC_Name`).
    #[allow(non_snake_case)]
    pub fn setDccName(&mut self, name: &str)
        ensures
            final(self)@ == (ArchiveState {
                archive_metadata: pairs_with(old(self)@.archive_metadata, "_ai_DCC_Name"@, name@),
                ..old(self)@
            }),
    {
        self.set_meta("_ai_DCC_Name", name);
    }

    /// Set the DCC version (`_ai_DCC_Version`).
    #[allow(non_snake_case)]
    pub fn setDccVersion(&mut self, version: &str)
        ensures
            final(self)@ == (ArchiveState {
                archive_metadata: pairs_with(old(self)@.archive_metadata, "_ai_DCC_Version"@, version@),
                ..old(self)@
            }),
    {
        self.set_meta("_ai_DCC_Version", version);
    }

    /// Set the DCC frame rate (`_ai_DCC_FPS`), given as its decimal text.
    #[allow(non_snake_case)]
    pub fn setDccFps(&mut self, fps_text: &str)
        ensures
            final(self)@ == (ArchiveState {
                archive_metadata: pairs_with(old(self)@.archive_metadata, "_ai_DCC_FPS"@, fps_text@),
                ..old(self)@
            }),
    {
        self.set_meta("_ai_DCC_FPS", fps_text);
    }

    /// Add a time sampling (time per cycle and times as bit patterns) and
    /// return its index; an equal sampling gives its index back.
    #[allow(non_snake_case)]
    #[verifier::spinoff_prover]
    pub fn addTimeSampling(&mut self, time_per_cycle: u64, times: Vec<u64>) -> (r: u32)
        requires
            archive_wf(old(self)@),
            old(self)@.image.samplings.len() < 0xFFFF_FFFF,
            times@.len() < 0x1_0000_0000,
        ensures
            archive_wf(final(self)@),
            match sampling_index(old(self)@.image.samplings, time_per_cycle, times@) {
                Some(i) => r == i && final(self)@ == old(self)@,
                None => r == old(self)@.image.samplings.len() && final(self)@ == (ArchiveState {
                    image: ImageView {
                        samplings: old(self)@.image.samplings.push((0u32, time_per_cycle, times@)),
                        ..old(self)@.image
                    },
                    ..old(self)@
                }),
            },
    {
        self.image.addTimeSampling(time_per_cycle, times)
    }

    /// Raise the largest sample count of a time sampling.
    #[verifier::spinoff_prover]
    pub fn update_max_samples(&mut self, ts_index: u32, num_samples: u32)
        requires
            archive_wf(old(self)@),
        ensures
            archive_wf(final(self)@),
            final(self)@ == (ArchiveState {
                image: ImageView {
                    samplings: raised_max(old(self)@.image.samplings, ts_index as int, num_samples),
                    ..old(self)@.image
                },
                ..old(self)@
            }),
    {
        self.image.update_max_samples(ts_index, num_samples);
    }

    /// Number of time samplings.
    #[allow(non_snake_case)]
    pub fn getNumTimeSamplings(&self) -> (r: usize)
        ensures
            r == self@.image.samplings.len(),
    {
        self.image.getNumTimeSamplings()
    }

    /// Look up or add metadata in the indexed metadata table.
    pub fn add_indexed_metadata(&mut self, md: &MetaData) -> (r: u8)
        requires
            archive_wf(old(self)@),
        ensures
            archive_wf(final(self)@),
            (r as int, final(self)@.table) == table_add(old(self)@.table, md_text(*md)),
            final(self)@ == (ArchiveState { table: final(self)@.table, ..old(self)@ }),
    {
        self.index.add_indexed_metadata(md)
    }

    /// Take over another archive's indexed metadata table (entry 0 the empty
    /// text, entry `i > 0` the text of `metadata[i]`), so that headers copied
    /// from it keep their indices.
    pub fn set_indexed_metadata(&mut self, metadata: &[MetaData])
        requires
            archive_wf(old(self)@),
            table_wf(copied_table(metadata@)),
        ensures
            archive_wf(final(self)@),
            final(self)@ == (ArchiveState { table: copied_table(metadata@), ..old(self)@ }),
    {
        self.index.set_indexed_metadata(metadata);
    }
}

/// `b` begins with `a`: what was written stays in place.
pub open spec fn extends(a: Seq<u8>, b: Seq<u8>) -> bool {
    a.len() <= b.len() && b.subrange(0, a.len() as int) == a
}

/// The bytes at `pos` are the group block with children `cs`.
pub open spec fn group_at(bytes: Seq<u8>, pos: int, cs: Seq<u64>) -> bool {
    0 <= pos && pos + 8 + 8 * cs.len() <= bytes.len() && bytes.subrange(pos, pos + 8 + 8 * cs.len())
        == group_block(cs)
}

/// The children of a property list's group: each property's group, then
/// the data block of the property headers.
pub open spec fn property_group_children(qs: Seq<u64>, hp: u64) -> Seq<u64> {
    Seq::new(qs.len(), |k: int| group_offset_of(qs[k])).push(data_offset_of(hp))
}

proof fn lemma_extends_trans(a: Seq<u8>, b: Seq<u8>, c: Seq<u8>)
    requires
        extends(a, b),
        extends(b, c),
    ensures
        extends(a, c),
{
    assert(c.subrange(0, a.len() as int) =~= c.subrange(0, b.len() as int).subrange(0, a.len() as int));
}

proof fn lemma_appended_group(a: Seq<u8>, cs: Seq<u64>)
    ensures
        group_at(a + group_block(cs), a.len() as int, cs),
        extends(a, a + group_block(cs)),
{
    crate::ogawa::writer::time_table::lemma_words_len(cs);
    crate::ogawa::le::lemma_le_bytes_len(cs.len(), 8);
    let b = a + group_block(cs);
    assert(b.subrange(a.len() as int, (a.len() + 8 + 8 * cs.len()) as int) =~= group_block(cs));
    assert(b.subrange(0, a.len() as int) =~= a);
}

proof fn lemma_extends_append(a: Seq<u8>, x: Seq<u8>)
    ensures
        extends(a, a + x),
{
    assert((a + x).subrange(0, a.len() as int) =~= a);
}

proof fn lemma_extends_refl(a: Seq<u8>)
    ensures
        extends(a, a),
{
    assert(a.subrange(0, a.len() as int) =~= a);
}

proof fn lemma_scalar_run_extends(
    img: ImageView,
    datas: Seq<Seq<u8>>,
    ks: Seq<ContentKey>,
    pod: crate::util::pod::PlainOldDataType,
    n: int,
)
    ensures
        extends(img.bytes, scalar_run(img, datas, ks, pod, n).0.bytes),
        scalar_run(img, datas, ks, pod, n).0.frozen == img.frozen,
        scalar_run(img, datas, ks, pod, n).0.samplings == img.samplings,
    decreases n,
{
    if n <= 0 {
        lemma_extends_refl(img.bytes);
    } else {
        lemma_scalar_run_extends(img, datas, ks, pod, n - 1);
        let im = scalar_run(img, datas, ks, pod, n - 1).0;
        if changed_at(ks, n - 1) {
            let data = encoded_sample(datas[n - 1], pod);
            lemma_keyed_write_growth(im, ks[n - 1], data);
            let w = keyed_write(im, ks[n - 1], data).0;
            assert(extends(im.bytes, w.bytes));
            lemma_extends_trans(img.bytes, im.bytes, w.bytes);
        }
    }
}

proof fn lemma_array_run_extends(
    img: ImageView,
    datas: Seq<Seq<u8>>,
    dims: Seq<Seq<usize>>,
    ks: Seq<ContentKey>,
    pod: crate::util::pod::PlainOldDataType,
    n: int,
)
    ensures
        extends(img.bytes, array_run(img, datas, dims, ks, pod, n).0.bytes),
        array_run(img, datas, dims, ks, pod, n).0.frozen == img.frozen,
        array_run(img, datas, dims, ks, pod, n).0.samplings == img.samplings,
    decreases n,
{
    if n <= 0 {
        lemma_extends_refl(img.bytes);
    } else {
        lemma_array_run_extends(img, datas, dims, ks, pod, n - 1);
        let im = array_run(img, datas, dims, ks, pod, n - 1).0;
        if changed_at(ks, n - 1) {
            let data = encoded_sample(datas[n - 1], pod);
            lemma_keyed_write_growth(im, ks[n - 1], data);
            let w = keyed_write(im, ks[n - 1], data).0;
            assert(extends(im.bytes, w.bytes));
            lemma_extends_trans(img.bytes, im.bytes, w.bytes);
            if stores_dims(dims[n - 1], pod) {
                let dw = data_write(w, words(dims_u64(dims[n - 1]))).0;
                lemma_data_write_growth(w, words(dims_u64(dims[n - 1])));
                if words(dims_u64(dims[n - 1])).len() > 0 {
                    lemma_extends_append(w.bytes, data_block(words(dims_u64(dims[n - 1]))));
                } else {
                    lemma_extends_refl(w.bytes);
                }
                lemma_extends_trans(img.bytes, w.bytes, dw.bytes);
            }
        }
    }
}

proof fn lemma_raised_counts(img: ImageView, idx: int, n: u32)
    requires
        counts_fit(img),
    ensures
        counts_fit(ImageView { samplings: raised_max(img.samplings, idx, n), ..img }),
{
    let v = ImageView { samplings: raised_max(img.samplings, idx, n), ..img };
    assert forall|i: int| 0 <= i < v.samplings.len() implies #[trigger] v.samplings[i].2.len() < 0x1_0000_0000 by {
        assert(v.samplings[i].2 == img.samplings[i].2);
    }
}

fn scalar_room_of(samples: &[Vec<u8>]) -> (r: u128)
    requires
        samples@.len() < 0x1_0000_0000,
    ensures
        r == scalar_room(sample_views(samples@), samples@.len() as int),
{
    let ghost datas = sample_views(samples@);
    let mut total: u128 = 0;
    let mut i: usize = 0;
    while i < samples.len()
        invariant
            i <= samples@.len(),
            samples@.len() < 0x1_0000_0000,
            datas == sample_views(samples@),
            total == scalar_room(datas, i as int),
            total <= i * 0x1_0000_0000_0000_0020,
        decreases samples@.len() - i,
    {
        assert(datas[i as int] == samples@[i as int]@);
        total = total + samples[i].len() as u128 + 32;
        i = i + 1;
    }
    total
}

fn array_room_of(samples: &[(Vec<u8>, Vec<usize>)]) -> (r: u128)
    requires
        samples@.len() < 0x1_0000_0000,
    ensures
        r == array_room(array_datas(samples@), array_dims(samples@), samples@.len() as int),
{
    let ghost datas = array_datas(samples@);
    let ghost dims = array_dims(samples@);
    let mut total: u128 = 0;
    let mut i: usize = 0;
    while i < samples.len()
        invariant
            i <= samples@.len(),
            samples@.len() < 0x1_0000_0000,
            datas == array_datas(samples@),
            dims == array_dims(samples@),
            total == array_room(datas, dims, i as int),
            total <= i * 0x10_0000_0000_0000_0000,
        decreases samples@.len() - i,
    {
        assert(datas[i as int] == samples@[i as int].0@);
        assert(dims[i as int] == samples@[i as int].1@);
        total = total + samples[i].0.len() as u128 + 8 * (samples[i].1.len() as u128) + 48;
        i = i + 1;
    }
    total
}

/// The largest image the writer produces: file positions are 63-bit, and
/// beyond this size a write is refused.
pub const IMAGE_LIMIT: u128 = 0x4000_0000_0000_0000;

fn too_large() -> (r: Error)
    ensures
        r is WriteFailed,
{
    Error::WriteFailed("archive image exceeds the largest file position".to_owned())
}

/// Writing a property list either fails because the archive is frozen
/// (nothing written) or because the image would exceed the largest file
/// position; otherwise its group has one child per property and the data
/// offset of the property headers last.
pub open spec fn properties_written(
    old_a: ArchiveState,
    new_a: ArchiveState,
    oc: Option<Seq<OObject>>,
    props: Seq<OProperty>,
    ds: Seq<SampleDigests>,
    n: nat,
    r: Result<(u64, u64), Error>,
) -> bool {
    &&& archive_wf(new_a)
    &&& same_settings(old_a, new_a)
    &&& new_a.image.frozen == old_a.image.frozen
    &&& extends(old_a.image.bytes, new_a.image.bytes)
    &&& (r is Ok ==> table_prefix(old_a.table, new_a.table))
    &&& old_a.image.frozen ==> (r matches Err(Error::Frozen) && new_a == old_a)
    &&& (r matches Err(e) ==> old_a.image.frozen || e is WriteFailed)
    &&& (r matches Ok((pos, _)) ==> n == props.len() && property_list_at(new_a.image.bytes, pos, props, ds, new_a.table))
    &&& (r matches Ok((_, ohp)) ==> match oc {
        Some(cs) => ohp >= 16 && header_block_at(new_a.image.bytes, ohp, cs, new_a.table),
        None => ohp == 0,
    })
}

/// A property list is written without fail whenever its room fits: the
/// image then grows by at most that room, and the time sampling table keeps
/// its size.
pub open spec fn props_room_written(
    old_a: ArchiveState,
    new_a: ArchiveState,
    oc: Option<Seq<OObject>>,
    props: Seq<OProperty>,
    ds: Seq<SampleDigests>,
    r: Result<(u64, u64), Error>,
) -> bool {
    (!old_a.image.frozen && fits((old_a.image.bytes.len() + properties_room(props, ds, oc)) as nat)) ==> (
    r is Ok && new_a.image.bytes.len() <= old_a.image.bytes.len() + properties_room(props, ds, oc)
        && samplings_bytes(new_a.image.samplings).len() == samplings_bytes(old_a.image.samplings).len())
}

/// An empty property list is written without fail: with no object header
/// block nothing is written; with the header block of no children, the 32
/// digest bytes take a block of 40 bytes, whenever those fit.
pub open spec fn empty_properties_written(
    old_a: ArchiveState,
    new_a: ArchiveState,
    oc: Option<Seq<OObject>>,
    props: Seq<OProperty>,
    r: Result<(u64, u64), Error>,
) -> bool {
    &&& (!old_a.image.frozen && props.len() == 0 && oc is None) ==> (r is Ok && new_a == old_a)
    &&& (!old_a.image.frozen && props.len() == 0 && (oc matches Some(cs) && cs.len() == 0) && fits(
        old_a.image.bytes.len() + 40,
    )) ==> (r is Ok && new_a.table == old_a.table && new_a.image.samplings == old_a.image.samplings
        && new_a.image.bytes.len() <= old_a.image.bytes.len() + 40)
}

/// From property `lo` on, the group at `qs[k]` of each property lists what
/// was written for it: for a compound, its own property list (with its
/// digests); otherwise the children of its sampling state `sts[k]`
/// (position 0 when it has none).
pub open spec fn property_groups_at(
    bytes: Seq<u8>,
    qs: Seq<u64>,
    props: Seq<OProperty>,
    ds: Seq<SampleDigests>,
    sts: Seq<PropertySampleState>,
    lo: int,
    t: Seq<Seq<char>>,
) -> bool
    decreases props, 0nat,
{
    forall|k: int|
        #![trigger qs[k]]
        lo <= k && 0 <= k < props.len() ==> match props[k].data {
            OPropertyData::Compound(sub) => match ds[k] {
                SampleDigests::Children(sds) => property_list_at(bytes, qs[k], sub@, sds@, t),
                _ => true,
            },
            _ => if sts[k].children@.len() == 0 {
                qs[k] == 0
            } else {
                qs[k] >= 16 && group_at(bytes, qs[k] as int, sts[k].children@)
            },
        }
}

/// The property header block at `hp` holds the headers of `props`, with
/// sampling states that record what collecting each property records,
/// encoded against a metadata table whose result `t` extends; the groups at
/// `qs` hold what was written for each property.
pub open spec fn property_headers_at(
    bytes: Seq<u8>,
    hp: u64,
    qs: Seq<u64>,
    props: Seq<OProperty>,
    ds: Seq<SampleDigests>,
    t: Seq<Seq<char>>,
) -> bool
    decreases props, 1nat,
{
    exists|tk: Seq<Seq<char>>, sts: Seq<PropertySampleState>|
        #[trigger] block_at(bytes, hp as int, headers_encoding(tk, header_inputs(props, sts)).0) && sts.len()
            == props.len() && (forall|k: int| 0 <= k < props.len() ==> state_matches(#[trigger] sts[k], props[k], ds[k]))
            && table_wf(tk) && table_prefix(headers_encoding(tk, header_inputs(props, sts)).1, t) && placed(
            hp as int,
            headers_encoding(tk, header_inputs(props, sts)).0,
        ) && property_groups_at(bytes, qs, props, ds, sts, 0, t)
}

/// The group at `pos` is that of the property list `props`: one group per
/// property and the property header block (position 0 for an empty list).
pub open spec fn property_list_at(
    bytes: Seq<u8>,
    pos: u64,
    props: Seq<OProperty>,
    ds: Seq<SampleDigests>,
    t: Seq<Seq<char>>,
) -> bool
    decreases props, 2nat,
{
    &&& props.len() == 0 ==> pos == 0
    &&& props.len() > 0 ==> pos >= 16 && exists|qs: Seq<u64>, hp: u64|
        qs.len() == props.len() && #[trigger] group_at(bytes, pos as int, property_group_children(qs, hp))
            && property_headers_at(bytes, hp, qs, props, ds, t)
}

proof fn lemma_property_groups_extends(
    a: Seq<u8>,
    b: Seq<u8>,
    qs: Seq<u64>,
    props: Seq<OProperty>,
    ds: Seq<SampleDigests>,
    sts: Seq<PropertySampleState>,
    lo: int,
    t1: Seq<Seq<char>>,
    t2: Seq<Seq<char>>,
)
    requires
        property_groups_at(a, qs, props, ds, sts, lo, t1),
        extends(a, b),
        table_prefix(t1, t2),
    ensures
        property_groups_at(b, qs, props, ds, sts, lo, t2),
    decreases props, 0nat,
{
    assert forall|k: int|
        #![trigger qs[k]]
        lo <= k && 0 <= k < props.len() implies match props[k].data {
            OPropertyData::Compound(sub) => match ds[k] {
                SampleDigests::Children(sds) => property_list_at(b, qs[k], sub@, sds@, t2),
                _ => true,
            },
            _ => if sts[k].children@.len() == 0 {
                qs[k] == 0
            } else {
                qs[k] >= 16 && group_at(b, qs[k] as int, sts[k].children@)
            },
        } by {
        match props[k].data {
            OPropertyData::Compound(sub) => match ds[k] {
                SampleDigests::Children(sds) => {
                    assert(decreases_to!(props => props[k]));
                    assert(decreases_to!(props[k] => props[k].data));
                    assert(decreases_to!(props => sub@));
                    lemma_property_list_extends(a, b, qs[k], sub@, sds@, t1, t2);
                },
                _ => {},
            },
            _ => {
                if sts[k].children@.len() > 0 {
                    lemma_group_at_extends_to(a, b, qs[k] as int, sts[k].children@);
                }
            },
        }
    }
}

proof fn lemma_property_groups_frozen(
    b: Seq<u8>,
    root: u64,
    qs: Seq<u64>,
    props: Seq<OProperty>,
    ds: Seq<SampleDigests>,
    sts: Seq<PropertySampleState>,
    t: Seq<Seq<char>>,
)
    requires
        b.len() >= 16,
        property_groups_at(b, qs, props, ds, sts, 0, t),
    ensures
        property_groups_at(frozen_bytes(b, root), qs, props, ds, sts, 0, t),
    decreases props, 0nat,
{
    assert forall|k: int|
        #![trigger qs[k]]
        0 <= k < props.len() implies match props[k].data {
            OPropertyData::Compound(sub) => match ds[k] {
                SampleDigests::Children(sds) => property_list_at(frozen_bytes(b, root), qs[k], sub@, sds@, t),
                _ => true,
            },
            _ => if sts[k].children@.len() == 0 {
                qs[k] == 0
            } else {
                qs[k] >= 16 && group_at(frozen_bytes(b, root), qs[k] as int, sts[k].children@)
            },
        } by {
        match props[k].data {
            OPropertyData::Compound(sub) => match ds[k] {
                SampleDigests::Children(sds) => {
                    assert(decreases_to!(props => props[k]));
                    assert(decreases_to!(props[k] => props[k].data));
                    assert(decreases_to!(props => sub@));
                    lemma_property_list_frozen(b, root, qs[k], sub@, sds@, t);
                },
                _ => {},
            },
            _ => {
                if sts[k].children@.len() > 0 {
                    lemma_group_at_frozen(b, root, qs[k] as int, sts[k].children@);
                }
            },
        }
    }
}

proof fn lemma_property_list_extends(
    a: Seq<u8>,
    b: Seq<u8>,
    pos: u64,
    props: Seq<OProperty>,
    ds: Seq<SampleDigests>,
    t1: Seq<Seq<char>>,
    t2: Seq<Seq<char>>,
)
    requires
        property_list_at(a, pos, props, ds, t1),
        extends(a, b),
        table_prefix(t1, t2),
    ensures
        property_list_at(b, pos, props, ds, t2),
    decreases props, 2nat,
{
    if props.len() > 0 {
        let (qs, hp) = choose|qs: Seq<u64>, hp: u64|
            qs.len() == props.len() && #[trigger] group_at(a, pos as int, property_group_children(qs, hp))
                && property_headers_at(a, hp, qs, props, ds, t1);
        lemma_group_at_extends_to(a, b, pos as int, property_group_children(qs, hp));
        lemma_property_headers_extends(a, b, hp, qs, props, ds, t1, t2);
    }
}

proof fn lemma_property_list_frozen(
    b: Seq<u8>,
    root: u64,
    pos: u64,
    props: Seq<OProperty>,
    ds: Seq<SampleDigests>,
    t: Seq<Seq<char>>,
)
    requires
        b.len() >= 16,
        property_list_at(b, pos, props, ds, t),
    ensures
        property_list_at(frozen_bytes(b, root), pos, props, ds, t),
    decreases props, 2nat,
{
    if props.len() > 0 {
        let (qs, hp) = choose|qs: Seq<u64>, hp: u64|
            qs.len() == props.len() && #[trigger] group_at(b, pos as int, property_group_children(qs, hp))
                && property_headers_at(b, hp, qs, props, ds, t);
        lemma_group_at_frozen(b, root, pos as int, property_group_children(qs, hp));
        let (tk, sts) = choose|tk: Seq<Seq<char>>, sts: Seq<PropertySampleState>|
            #[trigger] block_at(b, hp as int, headers_encoding(tk, header_inputs(props, sts)).0) && sts.len()
                == props.len() && (forall|k: int| 0 <= k < props.len() ==> state_matches(#[trigger] sts[k], props[k], ds[k]))
                && table_wf(tk) && table_prefix(headers_encoding(tk, header_inputs(props, sts)).1, t) && placed(
                hp as int,
                headers_encoding(tk, header_inputs(props, sts)).0,
            ) && property_groups_at(b, qs, props, ds, sts, 0, t);
        let e = headers_encoding(tk, header_inputs(props, sts)).0;
        if e.len() > 0 {
            lemma_data_at_frozen(b, root, hp as int, e);
        }
        lemma_property_groups_frozen(b, root, qs, props, ds, sts, t);
        assert(block_at(frozen_bytes(b, root), hp as int, e));
        assert(property_headers_at(frozen_bytes(b, root), hp, qs, props, ds, t));
    }
}

/// What a reader decodes from the header written for a property with its
/// sampling state: the property's name and metadata text; the property type
/// of its data (a compound reads as compound, scalar samples as a scalar
/// property, array samples as an array property, scalar-like exactly for
/// scalar samples and arrays flagged so); and, for samples, the property's
/// data type and time sampling index and the state's sample count and change
/// range.
pub proof fn lemma_written_header_reads_as_property(p: OProperty, st: PropertySampleState)
    ensures
        ({
            let v = header_view_of(header_input(p, Some(st)));
            &&& v.name == p.name@
            &&& v.metadata == md_text(p.meta_data)
            &&& (p.data is Compound <==> v.property_type == PropertyType::Compound)
            &&& (p.data is Scalar <==> v.property_type == PropertyType::Scalar)
            &&& (p.data is Array <==> v.property_type == PropertyType::Array)
            &&& !(p.data is Compound) ==> {
                &&& v.data_type == p.data_type
                &&& v.time_sampling_index == p.time_sampling_index
                &&& v.next_sample_index == st.num_samples
                &&& v.first_changed_index == st.first_changed_index
                &&& v.last_changed_index == st.last_changed_index
                &&& v.is_scalar_like == (p.data is Scalar || p.is_scalar_like)
            }
        }),
{
}

/// The first and last changed samples of `n` samples lie within them.
proof fn lemma_change_bounds(ks: Seq<ContentKey>, n: int)
    requires
        n >= 0,
    ensures
        0 <= first_change(ks, n) <= n,
        0 <= last_change(ks, n) <= n,
    decreases n,
{
    if n > 1 {
        lemma_change_bounds(ks, n - 1);
    }
}

/// A property whose header the header encoding can represent: a non-empty
/// name, texts whose byte sizes fit 32 bits, and a known data type unless it
/// is compound.
pub open spec fn property_fits(p: OProperty) -> bool {
    &&& p.name@.len() > 0
    &&& byte_len(p.name@) < 0x1_0000_0000
    &&& byte_len(md_text(p.meta_data)) < 0x1_0000_0000
    &&& !(p.data is Compound) ==> p.data_type.pod != PlainOldDataType::Unknown
}

/// The headers of a written property list read back: the list's group ends
/// in a data block whose property headers decode, against any later metadata
/// table of the archive, to the header of every property in order (its
/// name, kind, data type, metadata and time sampling, and the sample count
/// and change range that collecting its samples recorded).
pub proof fn lemma_property_headers_read_back(
    bytes: Seq<u8>,
    pos: u64,
    props: Seq<OProperty>,
    ds: Seq<SampleDigests>,
    t: Seq<Seq<char>>,
)
    requires
        property_list_at(bytes, pos, props, ds, t),
        props.len() > 0,
        ds.len() == props.len(),
        fits(bytes.len()),
        all_digests_fit(props, ds, props.len()),
        forall|k: int| 0 <= k < props.len() ==> property_fits(#[trigger] props[k]),
    ensures
        exists|sts: Seq<PropertySampleState>|
            sts.len() == props.len() && (forall|k: int| 0 <= k < props.len() ==> state_matches(#[trigger] sts[k], props[k], ds[k]))
                && ({
                let g = group_read(bytes, pos, false);
                &&& g.num_children == props.len() + 1
                &&& child_is_data(bytes, g, props.len() as int)
                &&& parse_property_headers_from(child_block(bytes, g, props.len() as int), 0, t) == Ok::<
                    Seq<PropertyHeaderView>,
                    crate::ogawa::read_util::HeaderError,
                >(Seq::new(props.len(), |i: int| header_view_of(header_inputs(props, sts)[i])))
            }),
        ({
            let g = group_read(bytes, pos, false);
            &&& g.num_children == props.len() + 1
            &&& child_is_data(bytes, g, props.len() as int)
            &&& block_readable(bytes, g, props.len() as int)
        }),
{
    let (qs, hp) = choose|qs: Seq<u64>, hp: u64|
        qs.len() == props.len() && #[trigger] group_at(bytes, pos as int, property_group_children(qs, hp))
            && property_headers_at(bytes, hp, qs, props, ds, t);
    let (tk, sts) = choose|tk: Seq<Seq<char>>, sts: Seq<PropertySampleState>|
        #[trigger] block_at(bytes, hp as int, headers_encoding(tk, header_inputs(props, sts)).0) && sts.len()
            == props.len() && (forall|k: int| 0 <= k < props.len() ==> state_matches(#[trigger] sts[k], props[k], ds[k]))
            && table_wf(tk) && table_prefix(headers_encoding(tk, header_inputs(props, sts)).1, t) && placed(
            hp as int,
            headers_encoding(tk, header_inputs(props, sts)).0,
        ) && property_groups_at(bytes, qs, props, ds, sts, 0, t);
    let hs = header_inputs(props, sts);
    let e = headers_encoding(tk, hs).0;
    let kids = property_group_children(qs, hp);
    assert(kids.len() == props.len() + 1);
    lemma_group_reads_back(bytes, pos, kids);
    let g = group_read(bytes, pos, false);
    let last = props.len() as int;
    assert(child_offset_of(bytes, g, last) == kids[last]);
    assert(kids[last] == data_offset_of(hp));
    assert(e.len() > 0) by {
        let (prev, t1) = headers_encoding(tk, hs.drop_last());
        let (idx, t2) = table_add(t1, hs.last().metadata);
        crate::ogawa::le::lemma_le_bytes_len(header_info(hs.last(), idx as u32) as nat, 4);
        assert(e == prev + header_bytes(hs.last(), idx as u32));
    }
    assert(hp >= 16);
    assert(hp < 0x8000_0000_0000_0000);
    lemma_child_offset_roundtrip(hp);
    lemma_data_reads_back(bytes, hp, e);
    assert(child_block(bytes, g, last) == e);
    assert forall|i: int| 0 <= i < hs.len() implies header_fits(#[trigger] hs[i]) by {
        lemma_all_digests_fit(props, ds, props.len(), i);
        assert(hs[i] == header_input(props[i], Some(sts[i])));
        assert(state_matches(sts[i], props[i], ds[i]));
        match props[i].data {
            OPropertyData::Scalar(samples) => {
                let n = samples@.len() as int;
                let ks = sample_keys(sample_views(samples@), ds[i]->Samples_0@, props[i].data_type.pod);
                lemma_change_bounds(ks, n);
            },
            OPropertyData::Array(samples) => {
                let n = samples@.len() as int;
                let ks = sample_keys(array_datas(samples@), ds[i]->Samples_0@, props[i].data_type.pod);
                lemma_change_bounds(ks, n);
            },
            OPropertyData::Compound(_) => {},
        }
    }
    lemma_property_headers_roundtrip(tk, hs);
    lemma_parse_properties_prefix(e, 0, headers_encoding(tk, hs).1, t);
    assert(Seq::new(hs.len(), |i: int| header_view_of(hs[i])) =~= Seq::new(
        props.len(),
        |i: int| header_view_of(header_inputs(props, sts)[i]),
    ));
}

proof fn lemma_property_headers_extends(
    a: Seq<u8>,
    b: Seq<u8>,
    hp: u64,
    qs: Seq<u64>,
    props: Seq<OProperty>,
    ds: Seq<SampleDigests>,
    t1: Seq<Seq<char>>,
    t2: Seq<Seq<char>>,
)
    requires
        property_headers_at(a, hp, qs, props, ds, t1),
        extends(a, b),
        table_prefix(t1, t2),
    ensures
        property_headers_at(b, hp, qs, props, ds, t2),
    decreases props, 1nat,
{
    let (tk, sts) = choose|tk: Seq<Seq<char>>, sts: Seq<PropertySampleState>|
        #[trigger] block_at(a, hp as int, headers_encoding(tk, header_inputs(props, sts)).0) && sts.len()
            == props.len() && (forall|k: int| 0 <= k < props.len() ==> state_matches(#[trigger] sts[k], props[k], ds[k]))
            && table_wf(tk) && table_prefix(headers_encoding(tk, header_inputs(props, sts)).1, t1) && placed(
            hp as int,
            headers_encoding(tk, header_inputs(props, sts)).0,
        ) && property_groups_at(a, qs, props, ds, sts, 0, t1);
    lemma_block_at_extends(a, b, hp as int, headers_encoding(tk, header_inputs(props, sts)).0);
    lemma_table_prefix_trans(headers_encoding(tk, header_inputs(props, sts)).1, t1, t2);
    lemma_property_groups_extends(a, b, qs, props, ds, sts, 0, t1, t2);
}

proof fn lemma_properties_written_ok(
    a0: ArchiveState,
    a1: ArchiveState,
    oc: Option<Seq<OObject>>,
    props: Seq<OProperty>,
    ds: Seq<SampleDigests>,
    n: nat,
    pos: u64,
    ohp: u64,
    qs: Seq<u64>,
    hp: u64,
)
    requires
        archive_wf(a1),
        same_settings(a0, a1),
        !a0.image.frozen,
        !a1.image.frozen,
        extends(a0.image.bytes, a1.image.bytes),
        table_prefix(a0.table, a1.table),
        qs.len() == n,
        n == props.len(),
        n > 0,
        group_at(a1.image.bytes, pos as int, property_group_children(qs, hp)),
        n > 0 ==> pos >= 16,
        n > 0 ==> property_headers_at(a1.image.bytes, hp, qs, props, ds, a1.table),
        match oc {
            Some(cs) => ohp >= 16 && header_block_at(a1.image.bytes, ohp, cs, a1.table),
            None => ohp == 0,
        },
    ensures
        properties_written(a0, a1, oc, props, ds, n, Ok((pos, ohp))),
{
    let r: Result<(u64, u64), Error> = Ok((pos, ohp));
    if n > 0 {
        assert(exists|qs2: Seq<u64>, hp2: u64|
            qs2.len() == n && #[trigger] group_at(a1.image.bytes, pos as int, property_group_children(qs2, hp2))
                && property_headers_at(a1.image.bytes, hp2, qs2, props, ds, a1.table));
    }
    assert(property_list_at(a1.image.bytes, pos, props, ds, a1.table));
    assert(r matches Ok((p, _)) && p == pos);
}

proof fn lemma_hash_suffix_len(h: (u64, u64, u64, u64))
    ensures
        hash_suffix(h.0, h.1, h.2, h.3).len() == 32,
{
    crate::ogawa::le::lemma_le_bytes_len(h.0 as nat, 8);
    crate::ogawa::le::lemma_le_bytes_len(h.1 as nat, 8);
    crate::ogawa::le::lemma_le_bytes_len(h.2 as nat, 8);
    crate::ogawa::le::lemma_le_bytes_len(h.3 as nat, 8);
}

/// The object header block just written at `hp`.
proof fn lemma_header_block_here(
    bytes: Seq<u8>,
    hp: u64,
    children: Seq<OObject>,
    t0: Seq<Seq<char>>,
    h: (u64, u64, u64, u64),
    t: Seq<Seq<char>>,
)
    requires
        data_at(bytes, hp as int, object_headers_encoding(t0, object_inputs(children)).0 + hash_suffix(h.0, h.1, h.2, h.3)),
        table_wf(t0),
        t == object_headers_encoding(t0, object_inputs(children)).1,
    ensures
        header_block_at(bytes, hp, children, t),
{
    lemma_table_prefix_refl(t);
}

/// What collecting a property's samples does: for a scalar or array
/// property, it fails (`WriteFailed`) exactly when it has 2^32 or more
/// samples or its samples could make the image exceed the largest size;
/// otherwise the image is the run that stores the samples, with the
/// largest sample count of its time sampling raised, and the state holds
/// the run's children over the change range, the first and last changed
/// sample and the sample count. A compound property writes nothing and
/// gives the empty state.
pub open spec fn property_collected(
    a0: ArchiveState,
    prop: OProperty,
    d: SampleDigests,
    r: Result<PropertySampleState, Error>,
    a1: ArchiveState,
) -> bool {
    let pod = prop.data_type.pod;
    let ts = prop.time_sampling_index as int;
    match prop.data {
        OPropertyData::Scalar(samples) => match d {
            SampleDigests::Samples(ds) => {
                let n = samples@.len() as int;
                let datas = sample_views(samples@);
                let ks = sample_keys(datas, ds@, pod);
                let (after, cs) = scalar_run(a0.image, datas, ks, pod, n);
                let f = first_change(ks, n);
                let l = last_change(ks, n);
                &&& (r is Err <==> (n >= 0x1_0000_0000 || !fits((a0.image.bytes.len() + scalar_room(datas, n)) as nat)))
                &&& (r is Err ==> a1 == a0)
                &&& (r matches Ok(st) ==> {
                    &&& st.children@ == run_children(cs, f, l)
                    &&& st.first_changed_index == f
                    &&& st.last_changed_index == l
                    &&& st.num_samples == n
                    &&& st.is_homogenous
                    &&& a1 == (ArchiveState {
                        image: ImageView { samplings: raised_max(after.samplings, ts, max_samples_for(n, l)), ..after },
                        ..a0
                    })
                })
            },
            _ => true,
        },
        OPropertyData::Array(samples) => match d {
            SampleDigests::Samples(ds) => {
                let n = samples@.len() as int;
                let datas = array_datas(samples@);
                let dims = array_dims(samples@);
                let ks = sample_keys(datas, ds@, pod);
                let (after, cs) = array_run(a0.image, datas, dims, ks, pod, n);
                let f = first_change(ks, n);
                let l = last_change(ks, n);
                &&& (r is Err <==> (n >= 0x1_0000_0000 || !fits(
                    (a0.image.bytes.len() + array_room(datas, dims, n)) as nat,
                )))
                &&& (r is Err ==> a1 == a0)
                &&& (r matches Ok(st) ==> {
                    &&& st.children@ == run_children(cs, f, l)
                    &&& st.first_changed_index == f
                    &&& st.last_changed_index == l
                    &&& st.num_samples == n
                    &&& st.is_homogenous == homogeneous(dims, ks, prop.data_type.extent, n)
                    &&& a1 == (ArchiveState {
                        image: ImageView { samplings: raised_max(after.samplings, ts, max_samples_for(n, l)), ..after },
                        ..a0
                    })
                })
            },
            _ => true,
        },
        OPropertyData::Compound(_) => {
            &&& r matches Ok(st)
            &&& st.children@.len() == 0
            &&& st.first_changed_index == 0
            &&& st.last_changed_index == 0
            &&& st.num_samples == 0
            &&& a1 == a0
        },
    }
}

/// A sampling state records what collecting property `p`'s samples (with
/// digests `d`) records: for a scalar or array property, its sample count,
/// first and last changed samples (and, for an array, whether its changed
/// samples all have one element count), and the children that writing its
/// samples into the image of the moment gave; for a compound, none.
pub open spec fn state_matches(st: PropertySampleState, p: OProperty, d: SampleDigests) -> bool {
    let pod = p.data_type.pod;
    match p.data {
        OPropertyData::Scalar(samples) => match d {
            SampleDigests::Samples(ds) => {
                let n = samples@.len() as int;
                let ks = sample_keys(sample_views(samples@), ds@, pod);
                &&& st.num_samples == n
                &&& st.first_changed_index == first_change(ks, n)
                &&& st.last_changed_index == last_change(ks, n)
                &&& exists|img: ImageView|
                    st.children@ == run_children(
                        #[trigger] scalar_run(img, sample_views(samples@), ks, pod, n).1,
                        first_change(ks, n),
                        last_change(ks, n),
                    )
            },
            _ => true,
        },
        OPropertyData::Array(samples) => match d {
            SampleDigests::Samples(ds) => {
                let n = samples@.len() as int;
                let ks = sample_keys(array_datas(samples@), ds@, pod);
                &&& st.num_samples == n
                &&& st.first_changed_index == first_change(ks, n)
                &&& st.last_changed_index == last_change(ks, n)
                &&& st.is_homogenous == homogeneous(array_dims(samples@), ks, p.data_type.extent, n)
                &&& exists|img: ImageView|
                    st.children@ == run_children(
                        #[trigger] array_run(img, array_datas(samples@), array_dims(samples@), ks, pod, n).1,
                        first_change(ks, n),
                        last_change(ks, n),
                    )
            },
            _ => true,
        },
        OPropertyData::Compound(_) => {
            &&& st.num_samples == 0
            &&& st.first_changed_index == 0
            &&& st.last_changed_index == 0
        },
    }
}

/// The most bytes that collecting the samples of property `p` writes: the
/// room of its sample run, none for a compound. A property of 2^32 samples
/// or more, which cannot be collected, gets a room that never fits.
pub open spec fn sample_room(p: OProperty) -> int {
    match p.data {
        OPropertyData::Scalar(s) => if s@.len() >= 0x1_0000_0000 {
            0x4000_0000_0000_0000
        } else {
            scalar_room(sample_views(s@), s@.len() as int)
        },
        OPropertyData::Array(s) => if s@.len() >= 0x1_0000_0000 {
            0x4000_0000_0000_0000
        } else {
            array_room(array_datas(s@), array_dims(s@), s@.len() as int)
        },
        OPropertyData::Compound(_) => 0,
    }
}

/// The most bytes the samples of the first `n` properties take.
pub open spec fn samples_room(props: Seq<OProperty>, n: int) -> int
    decreases n,
{
    if n <= 0 {
        0
    } else {
        samples_room(props, n - 1) + sample_room(props[n - 1])
    }
}

/// The most bytes the first `n` property headers of a list take: each one's
/// fixed fields, name and metadata text.
pub open spec fn props_headers_room(props: Seq<OProperty>, n: int) -> int
    decreases n,
{
    if n <= 0 {
        0
    } else {
        props_headers_room(props, n - 1) + 28 + byte_len(props[n - 1].name@) + byte_len(
            md_text(props[n - 1].meta_data),
        )
    }
}

/// The most bytes the property groups of the first `n` properties take: a
/// group of at most two children per sample for a scalar or array
/// property, the whole nested list for a compound.
pub open spec fn groups_room(props: Seq<OProperty>, ds: Seq<SampleDigests>, n: int) -> int
    decreases props, n,
{
    if n <= 0 || n > props.len() {
        0
    } else {
        groups_room(props, ds, n - 1) + match props[n - 1].data {
            OPropertyData::Compound(sub) => match ds[n - 1] {
                SampleDigests::Children(sds) => list_room(sub@, sds@),
                _ => 0,
            },
            OPropertyData::Scalar(s) => (16 * s@.len() + 8) as int,
            OPropertyData::Array(s) => (16 * s@.len() + 8) as int,
        }
    }
}

/// The most bytes writing a property list takes: its samples, its property
/// groups, its header block and its own group; nothing for an empty list.
pub open spec fn list_room(props: Seq<OProperty>, ds: Seq<SampleDigests>) -> int
    decreases props, props.len() + 1,
{
    if props.len() == 0 {
        0
    } else {
        samples_room(props, props.len() as int) + groups_room(props, ds, props.len() as int)
            + props_headers_room(props, props.len() as int) + 8 * props.len() + 24
    }
}

/// The most bytes writing a property list with an object header block for
/// the children `oc` takes: the list, and the header block of the children
/// with its 32 digest bytes.
pub open spec fn properties_room(props: Seq<OProperty>, ds: Seq<SampleDigests>, oc: Option<Seq<OObject>>) -> int {
    list_room(props, ds) + match oc {
        Some(cs) => objects_room(object_inputs(cs), cs.len() as int) + 40,
        None => 0,
    }
}

/// The most bytes writing an object takes: its child objects, its
/// properties with its header block, and its group.
pub open spec fn object_room(o: OObject, d: ObjectDigests) -> int
    decreases o, 0int,
{
    children_room(o.children@, d.children@, o.children@.len() as int) + properties_room(
        o.properties@,
        d.properties@,
        Some(o.children@),
    ) + 8 * o.children@.len() + 24
}

/// The most bytes writing the first `n` of the objects `os` takes.
pub open spec fn children_room(os: Seq<OObject>, ds: Seq<ObjectDigests>, n: int) -> int
    decreases os, n,
{
    if n <= 0 || n > os.len() {
        0
    } else {
        children_room(os, ds, n - 1) + object_room(os[n - 1], ds[n - 1])
    }
}

proof fn lemma_list_room_nonneg(props: Seq<OProperty>, ds: Seq<SampleDigests>)
    ensures
        list_room(props, ds) >= 0,
    decreases props, props.len() + 1,
{
    if props.len() > 0 {
        lemma_groups_room_nonneg(props, ds, props.len() as int);
        lemma_samples_room_nonneg(props, props.len() as int);
        lemma_props_headers_room_nonneg(props, props.len() as int);
    }
}

proof fn lemma_groups_room_nonneg(props: Seq<OProperty>, ds: Seq<SampleDigests>, n: int)
    ensures
        groups_room(props, ds, n) >= 0,
    decreases props, n,
{
    if n > 0 && n <= props.len() {
        lemma_groups_room_nonneg(props, ds, n - 1);
        match props[n - 1].data {
            OPropertyData::Compound(sub) => match ds[n - 1] {
                SampleDigests::Children(sds) => {
                    assert(decreases_to!(props => props[n - 1]));
                    assert(decreases_to!(props[n - 1] => props[n - 1].data));
                    assert(decreases_to!(props => sub@));
                    lemma_list_room_nonneg(sub@, sds@);
                },
                _ => {},
            },
            _ => {},
        }
    }
}

proof fn lemma_samples_room_nonneg(props: Seq<OProperty>, n: int)
    ensures
        samples_room(props, n) >= 0,
    decreases n,
{
    if n > 0 {
        lemma_samples_room_nonneg(props, n - 1);
        lemma_sample_room_nonneg(props[n - 1]);
    }
}

proof fn lemma_props_headers_room_nonneg(props: Seq<OProperty>, n: int)
    ensures
        props_headers_room(props, n) >= 0,
    decreases n,
{
    if n > 0 {
        lemma_props_headers_room_nonneg(props, n - 1);
    }
}

proof fn lemma_children_room_nonneg(os: Seq<OObject>, ds: Seq<ObjectDigests>, n: int)
    ensures
        children_room(os, ds, n) >= 0,
    decreases os, n,
{
    if n > 0 && n <= os.len() {
        lemma_children_room_nonneg(os, ds, n - 1);
        assert(decreases_to!(os => os[n - 1]));
        lemma_object_room_nonneg(os[n - 1], ds[n - 1]);
    }
}

proof fn lemma_object_room_nonneg(o: OObject, d: ObjectDigests)
    ensures
        object_room(o, d) >= 0,
    decreases o, 0int,
{
    assert(decreases_to!(o => o.children));
    assert(decreases_to!(o => o.children@));
    lemma_children_room_nonneg(o.children@, d.children@, o.children@.len() as int);
    lemma_list_room_nonneg(o.properties@, d.properties@);
}

/// The headers written for a property list take at most its header room,
/// whatever sampling states they record.
proof fn lemma_headers_room_of(props: Seq<OProperty>, sts: Seq<PropertySampleState>, n: int)
    requires
        n <= props.len(),
    ensures
        headers_room(header_inputs(props, sts), n) == props_headers_room(props, n),
    decreases n,
{
    if n > 0 {
        lemma_headers_room_of(props, sts, n - 1);
    }
}

/// A sampling state of a scalar or array property lists at most two
/// children per sample.
proof fn lemma_state_children_len(st: PropertySampleState, p: OProperty, d: SampleDigests)
    requires
        state_matches(st, p, d),
        digests_fit(p, d),
        !(p.data is Compound),
    ensures
        st.children@.len() <= 2 * sample_count(p),
{
    let pod = p.data_type.pod;
    match p.data {
        OPropertyData::Scalar(samples) => {
            let n = samples@.len() as int;
            let ks = sample_keys(sample_views(samples@), d->Samples_0@, pod);
            let img = choose|img: ImageView|
                st.children@ == run_children(
                    #[trigger] scalar_run(img, sample_views(samples@), ks, pod, n).1,
                    first_change(ks, n),
                    last_change(ks, n),
                );
            let cs = scalar_run(img, sample_views(samples@), ks, pod, n).1;
            lemma_scalar_run_room(img, sample_views(samples@), ks, pod, n);
            if n >= 1 {
                lemma_change_order(ks, n);
            }
            lemma_run_children_len(cs, first_change(ks, n), last_change(ks, n), 1);
        },
        OPropertyData::Array(samples) => {
            let n = samples@.len() as int;
            let ks = sample_keys(array_datas(samples@), d->Samples_0@, pod);
            let img = choose|img: ImageView|
                st.children@ == run_children(
                    #[trigger] array_run(img, array_datas(samples@), array_dims(samples@), ks, pod, n).1,
                    first_change(ks, n),
                    last_change(ks, n),
                );
            let cs = array_run(img, array_datas(samples@), array_dims(samples@), ks, pod, n).1;
            lemma_array_run_room(img, array_datas(samples@), array_dims(samples@), ks, pod, n);
            if n >= 1 {
                lemma_change_order(ks, n);
            }
            lemma_run_children_len(cs, first_change(ks, n), last_change(ks, n), 2);
        },
        OPropertyData::Compound(_) => {},
    }
}

/// When nothing changes after sample 0, the last change is sample 0 too.
proof fn lemma_unchanged_run(ks: Seq<ContentKey>, n: int)
    ensures
        first_change(ks, n) == 0 ==> last_change(ks, n) == 0,
    decreases n,
{
    if n > 1 {
        lemma_unchanged_run(ks, n - 1);
    }
}

/// Chunks of exactly `w` entries flatten to `w` entries each.
proof fn lemma_flat_len_exact(cs: Seq<Seq<u64>>, w: int)
    requires
        forall|i: int| 0 <= i < cs.len() ==> (#[trigger] cs[i]).len() == w,
    ensures
        flat(cs).len() == w * cs.len(),
    decreases cs.len(),
{
    if cs.len() > 0 {
        let init = cs.drop_last();
        assert forall|i: int| 0 <= i < init.len() implies (#[trigger] init[i]).len() == w by {
            assert(init[i] == cs[i]);
        }
        lemma_flat_len_exact(init, w);
        assert(w * cs.len() == w * init.len() + w) by (nonlinear_arith)
            requires
                cs.len() == init.len() + 1,
        ;
    }
}

/// The children a property group is written with, for `n` samples whose
/// chunks hold `w` entries each: `w` for a property that never changes
/// after sample 0, `w * n` when every sample from the second to the last is
/// stored.
proof fn lemma_run_children_count(cs: Seq<Seq<u64>>, ks: Seq<ContentKey>, n: int, w: int)
    requires
        n >= 1,
        cs.len() == n,
        forall|i: int| 0 <= i < n ==> (#[trigger] cs[i]).len() == w,
    ensures
        first_change(ks, n) == 0 ==> last_change(ks, n) == 0 && run_children(cs, 0, 0).len() == w,
        first_change(ks, n) == 1 && last_change(ks, n) == n - 1 ==> run_children(cs, 1, n - 1).len() == w * n,
{
    lemma_unchanged_run(ks, n);
    assert(cs[0].len() == w);
    if n > 1 {
        let sub = cs.subrange(1, n);
        assert forall|i: int| 0 <= i < sub.len() implies (#[trigger] sub[i]).len() == w by {
            assert(sub[i] == cs[1 + i]);
        }
        lemma_flat_len_exact(sub, w);
        assert(w + w * (n - 1) == w * n) by (nonlinear_arith);
    }
}

/// Every sample of a written scalar property can be read back from the
/// group it is written with, in the layouts the reader supports: for a
/// property whose samples never change after the first (first and last
/// changed index 0) any index reads sample 0, the one child its group
/// holds; for a property whose changes run from the second sample to the
/// last, index `i` reads sample `min(i, n - 1)`, one of the `n` children of
/// its group.
pub proof fn lemma_scalar_reads_resolve(
    img: ImageView,
    datas: Seq<Seq<u8>>,
    ks: Seq<ContentKey>,
    pod: crate::util::pod::PlainOldDataType,
    n: int,
    i: int,
)
    requires
        1 <= n < 0x1_0000_0000,
        0 <= i,
    ensures
        ({
            let cs = scalar_run(img, datas, ks, pod, n).1;
            let f = first_change(ks, n);
            let l = last_change(ks, n);
            let r = resolved_index(f as u32, l as u32, n as u32, i);
            &&& f == 0 ==> l == 0 && r == 0 && run_children(cs, f, l).len() == 1
            &&& f == 1 && l == n - 1 ==> r == (if i < n - 1 { i } else { n - 1 }) && run_children(cs, f, l).len()
                == n
            &&& (f == 0 || (f == 1 && l == n - 1)) ==> 0 <= r < run_children(cs, f, l).len()
        }),
{
    lemma_scalar_run_room(img, datas, ks, pod, n);
    lemma_change_order(ks, n);
    lemma_run_children_count(scalar_run(img, datas, ks, pod, n).1, ks, n, 1);
}

/// Every sample of a written array property can be read back from the
/// group it is written with, in the layouts the reader supports: a property
/// that never changes after the first sample reads sample 0 at any index,
/// whose data and dimensions are the two children its group holds; one
/// whose changes run from the second sample to the last reads sample
/// `min(i, n - 1)`, whose two children lie within the `2 n` of its group.
pub proof fn lemma_array_reads_resolve(
    img: ImageView,
    datas: Seq<Seq<u8>>,
    dims: Seq<Seq<usize>>,
    ks: Seq<ContentKey>,
    pod: crate::util::pod::PlainOldDataType,
    n: int,
    i: int,
)
    requires
        1 <= n < 0x1_0000_0000,
        0 <= i,
    ensures
        ({
            let cs = array_run(img, datas, dims, ks, pod, n).1;
            let f = first_change(ks, n);
            let l = last_change(ks, n);
            let r = resolved_index(f as u32, l as u32, n as u32, i);
            &&& f == 0 ==> l == 0 && r == 0 && run_children(cs, f, l).len() == 2
            &&& f == 1 && l == n - 1 ==> r == (if i < n - 1 { i } else { n - 1 }) && run_children(cs, f, l).len()
                == 2 * n
            &&& (f == 0 || (f == 1 && l == n - 1)) ==> 0 <= 2 * r + 1 < run_children(cs, f, l).len()
        }),
{
    lemma_array_run_room(img, datas, dims, ks, pod, n);
    lemma_change_order(ks, n);
    lemma_run_children_count(array_run(img, datas, dims, ks, pod, n).1, ks, n, 2);
}

/// The sample rooms of those of the first `n` properties marked in `done`.
spec fn masked_room(props: Seq<OProperty>, done: Seq<bool>, n: int) -> int
    decreases n,
{
    if n <= 0 {
        0
    } else {
        masked_room(props, done, n - 1) + if done[n - 1] {
            sample_room(props[n - 1])
        } else {
            0
        }
    }
}

proof fn lemma_sample_room_nonneg(p: OProperty)
    ensures
        sample_room(p) >= 0,
{
    match p.data {
        OPropertyData::Scalar(s) => lemma_scalar_room_nonneg(sample_views(s@), s@.len() as int),
        OPropertyData::Array(s) => lemma_array_room_nonneg(array_datas(s@), array_dims(s@), s@.len() as int),
        OPropertyData::Compound(_) => {},
    }
}

proof fn lemma_masked_prefix(props: Seq<OProperty>, a: Seq<bool>, b: Seq<bool>, n: int)
    requires
        forall|k: int| 0 <= k < n ==> a[k] == b[k],
    ensures
        masked_room(props, a, n) == masked_room(props, b, n),
    decreases n,
{
    if n > 0 {
        lemma_masked_prefix(props, a, b, n - 1);
    }
}

proof fn lemma_masked_none(props: Seq<OProperty>, done: Seq<bool>, n: int)
    requires
        forall|k: int| 0 <= k < n ==> !done[k],
    ensures
        masked_room(props, done, n) == 0,
    decreases n,
{
    if n > 0 {
        lemma_masked_none(props, done, n - 1);
    }
}

proof fn lemma_masked_mark(props: Seq<OProperty>, done: Seq<bool>, i: int, n: int)
    requires
        0 <= i < n <= done.len(),
        !done[i],
    ensures
        masked_room(props, done.update(i, true), n) == masked_room(props, done, n) + sample_room(props[i]),
    decreases n,
{
    if n - 1 > i {
        lemma_masked_mark(props, done, i, n - 1);
    } else {
        lemma_masked_prefix(props, done.update(i, true), done, n - 1);
    }
}

proof fn lemma_masked_le(props: Seq<OProperty>, done: Seq<bool>, n: int)
    ensures
        masked_room(props, done, n) <= samples_room(props, n),
    decreases n,
{
    if n > 0 {
        lemma_masked_le(props, done, n - 1);
        lemma_sample_room_nonneg(props[n - 1]);
    }
}

/// Collecting a property's samples succeeds whenever its room fits, and
/// then grows the image by at most that room and keeps the size of the time
/// sampling table.
proof fn lemma_collected_room(
    a0: ArchiveState,
    prop: OProperty,
    d: SampleDigests,
    r: Result<PropertySampleState, Error>,
    a1: ArchiveState,
)
    requires
        property_collected(a0, prop, d, r, a1),
        digests_fit(prop, d),
    ensures
        sample_room(prop) >= 0,
        fits((a0.image.bytes.len() + sample_room(prop)) as nat) ==> r is Ok,
        r is Ok ==> a1.image.bytes.len() <= a0.image.bytes.len() + sample_room(prop),
        r is Ok ==> samplings_bytes(a1.image.samplings).len() == samplings_bytes(a0.image.samplings).len(),
{
    let pod = prop.data_type.pod;
    let ts = prop.time_sampling_index as int;
    match prop.data {
        OPropertyData::Scalar(samples) => {
            let ds = d->Samples_0;
            let n = samples@.len() as int;
            let datas = sample_views(samples@);
            let ks = sample_keys(datas, ds@, pod);
            lemma_scalar_room_nonneg(datas, n);
            lemma_scalar_run_room(a0.image, datas, ks, pod, n);
            lemma_scalar_run_extends(a0.image, datas, ks, pod, n);
            let after = scalar_run(a0.image, datas, ks, pod, n).0;
            let raised = raised_max(after.samplings, ts, max_samples_for(n, last_change(ks, n)));
            assert forall|i: int| 0 <= i < after.samplings.len() implies (#[trigger] after.samplings[i]).2
                == raised[i].2 by {}
            lemma_samplings_len(after.samplings, raised);
        },
        OPropertyData::Array(samples) => {
            let ds = d->Samples_0;
            let n = samples@.len() as int;
            let datas = array_datas(samples@);
            let dims = array_dims(samples@);
            let ks = sample_keys(datas, ds@, pod);
            lemma_array_room_nonneg(datas, dims, n);
            lemma_array_run_room(a0.image, datas, dims, ks, pod, n);
            lemma_array_run_extends(a0.image, datas, dims, ks, pod, n);
            let after = array_run(a0.image, datas, dims, ks, pod, n).0;
            let raised = raised_max(after.samplings, ts, max_samples_for(n, last_change(ks, n)));
            assert forall|i: int| 0 <= i < after.samplings.len() implies (#[trigger] after.samplings[i]).2
                == raised[i].2 by {}
            lemma_samplings_len(after.samplings, raised);
        },
        OPropertyData::Compound(_) => {},
    }
}

/// A list of `n` distinct positions below `n` lists every position.
proof fn lemma_order_covers(order: Seq<usize>, n: int, j: int)
    requires
        order.len() == n,
        forall|q: int| 0 <= q < n ==> #[trigger] order[q] < n,
        forall|a: int, b: int| 0 <= a < b < n ==> order[a] != order[b],
        0 <= j < n,
    ensures
        exists|q: int| 0 <= q < n && order[q] == j,
{
    let ps = order.map_values(|x: usize| x as int);
    assert(ps.no_duplicates()) by {
        assert forall|a: int, b: int| 0 <= a < ps.len() && 0 <= b < ps.len() && a != b implies ps[a] != ps[b] by {
            if a < b {
                assert(order[a] != order[b]);
            } else {
                assert(order[b] != order[a]);
            }
        }
    }
    ps.unique_seq_to_set();
    vstd::set_lib::lemma_int_range(0, n);
    let range = vstd::set_lib::set_int_range(0, n);
    assert(ps.to_set().subset_of(range)) by {
        assert forall|x: int| ps.to_set().contains(x) implies range.contains(x) by {
            let q = choose|q: int| 0 <= q < ps.len() && ps[q] == x;
            assert(order[q] < n);
        }
    }
    vstd::set_lib::lemma_subset_equality(ps.to_set(), range);
    assert(range.contains(j));
    assert(ps.to_set().contains(j));
    let q = choose|q: int| 0 <= q < ps.len() && ps[q] == j;
    assert(order[q] == j);
}

impl OArchive {
    fn room_ok(&self, extra: u128) -> (r: bool)
        ensures
            r == fits((self@.image.bytes.len() + extra) as nat),
    {
        let p = self.image.pos() as u128;
        p < IMAGE_LIMIT && extra < IMAGE_LIMIT - p
    }

    fn collect_property_sample_data(&mut self, prop: &OProperty, d: &SampleDigests) -> (r: Result<PropertySampleState, Error>)
        requires
            archive_wf(old(self)@),
            !old(self)@.image.frozen,
            digests_fit(*prop, *d),
        ensures
            archive_wf(final(self)@),
            same_settings(old(self)@, final(self)@),
            !final(self)@.image.frozen,
            extends(old(self)@.image.bytes, final(self)@.image.bytes),
            final(self)@.table == old(self)@.table,
            r matches Err(e) ==> e is WriteFailed,
            property_collected(old(self)@, *prop, *d, r, final(self)@),
    {
        let ghost a0 = self@;
        proof {
            lemma_extends_refl(a0.image.bytes);
        }
        match &prop.data {
            OPropertyData::Scalar(samples) => {
                let ds = match d {
                    SampleDigests::Samples(ds) => ds,
                    SampleDigests::Children(_) => {
                        return Err(too_large());
                    },
                };
                if samples.len() as u64 >= 0x1_0000_0000u64 {
                    return Err(too_large());
                }
                let room = scalar_room_of(samples.as_slice());
                if !self.room_ok(room) {
                    return Err(too_large());
                }
                let r = collect_scalar_samples(
                    &mut self.image,
                    samples.as_slice(),
                    ds.as_slice(),
                    prop.data_type.pod,
                    prop.time_sampling_index,
                );
                proof {
                    let datas = sample_views(samples@);
                    let ks = sample_keys(datas, ds@, prop.data_type.pod);
                    lemma_scalar_run_extends(a0.image, datas, ks, prop.data_type.pod, samples@.len() as int);
                    let after = scalar_run(a0.image, datas, ks, prop.data_type.pod, samples@.len() as int).0;
                    lemma_raised_counts(after, prop.time_sampling_index as int, max_samples_for(samples@.len() as int, last_change(ks, samples@.len() as int)));
                }
                r
            },
            OPropertyData::Array(samples) => {
                let ds = match d {
                    SampleDigests::Samples(ds) => ds,
                    SampleDigests::Children(_) => {
                        return Err(too_large());
                    },
                };
                if samples.len() as u64 >= 0x1_0000_0000u64 {
                    return Err(too_large());
                }
                let room = array_room_of(samples.as_slice());
                if !self.room_ok(room) {
                    return Err(too_large());
                }
                let r = collect_array_samples(
                    &mut self.image,
                    samples.as_slice(),
                    ds.as_slice(),
                    prop.data_type.pod,
                    prop.data_type.extent,
                    prop.time_sampling_index,
                );
                proof {
                    let datas = array_datas(samples@);
                    let dims = array_dims(samples@);
                    let ks = sample_keys(datas, ds@, prop.data_type.pod);
                    lemma_array_run_extends(a0.image, datas, dims, ks, prop.data_type.pod, samples@.len() as int);
                    let after = array_run(a0.image, datas, dims, ks, prop.data_type.pod, samples@.len() as int).0;
                    lemma_raised_counts(after, prop.time_sampling_index as int, max_samples_for(samples@.len() as int, last_change(ks, samples@.len() as int)));
                }
                match r {
                    Ok((st, _)) => Ok(st),
                    Err(e) => Err(e),
                }
            },
            OPropertyData::Compound(_) => {
                proof {
                    lemma_extends_refl(a0.image.bytes);
                }
                Ok(PropertySampleState::default())
            },
        }
    }
}

impl OArchive {
    fn write_data_checked(&mut self, data: &[u8]) -> (r: Result<u64, Error>)
        requires
            archive_wf(old(self)@),
            !old(self)@.image.frozen,
        ensures
            archive_wf(final(self)@),
            same_settings(old(self)@, final(self)@),
            final(self)@.table == old(self)@.table,
            final(self)@.image.samplings == old(self)@.image.samplings,
            !final(self)@.image.frozen,
            extends(old(self)@.image.bytes, final(self)@.image.bytes),
            r matches Err(e) ==> e is WriteFailed,
            r matches Ok(p) ==> (data@.len() == 0 ==> p == 0) && (data@.len() > 0 ==> final(self)@.image.bytes
                == old(self)@.image.bytes + data_block(data@) && p == old(self)@.image.bytes.len()),
            fits(old(self)@.image.bytes.len() + data@.len() + 8) ==> r is Ok,
            r is Ok ==> final(self)@.image.bytes.len() <= old(self)@.image.bytes.len() + data@.len() + 8,
    {
        proof {
            lemma_extends_refl(old(self)@.image.bytes);
            lemma_extends_append(old(self)@.image.bytes, data_block(data@));
            crate::ogawa::le::lemma_le_bytes_len(data@.len(), 8);
        }
        if !self.room_ok(data.len() as u128 + 8) {
            return Err(too_large());
        }
        self.image.write_data(data)
    }

    fn write_group_checked(&mut self, children: &[u64]) -> (r: Result<u64, Error>)
        requires
            archive_wf(old(self)@),
            !old(self)@.image.frozen,
            children@.len() > 0,
        ensures
            archive_wf(final(self)@),
            same_settings(old(self)@, final(self)@),
            final(self)@.table == old(self)@.table,
            final(self)@.image.samplings == old(self)@.image.samplings,
            !final(self)@.image.frozen,
            extends(old(self)@.image.bytes, final(self)@.image.bytes),
            r matches Err(e) ==> e is WriteFailed,
            r matches Ok(p) ==> group_at(final(self)@.image.bytes, p as int, children@) && p
                == old(self)@.image.bytes.len(),
            r is Ok ==> fits(final(self)@.image.bytes.len()),
            fits(old(self)@.image.bytes.len() + 8 * children@.len() + 8) ==> r is Ok,
            r is Ok ==> final(self)@.image.bytes.len() == old(self)@.image.bytes.len() + 8 * children@.len() + 8,
    {
        proof {
            lemma_extends_refl(old(self)@.image.bytes);
            lemma_appended_group(old(self)@.image.bytes, children@);
            crate::ogawa::writer::time_table::lemma_words_len(children@);
            crate::ogawa::le::lemma_le_bytes_len(children@.len(), 8);
        }
        if !self.room_ok(8 * (children.len() as u128) + 8) {
            return Err(too_large());
        }
        self.image.write_group(children)
    }

    fn collect_in_order(&mut self, props: &[OProperty], ds: &[SampleDigests], order: &Vec<usize>) -> (r: Result<Vec<PropertySampleState>, Error>)
        requires
            archive_wf(old(self)@),
            !old(self)@.image.frozen,
            ds@.len() == props@.len(),
            all_digests_fit(props@, ds@, props@.len()),
            forall|k: int| 0 <= k < order@.len() ==> #[trigger] order@[k] < props@.len(),
            order@.len() == props@.len(),
            forall|a: int, b: int| 0 <= a < b < order@.len() ==> order@[a] != order@[b],
        ensures
            archive_wf(final(self)@),
            same_settings(old(self)@, final(self)@),
            !final(self)@.image.frozen,
            extends(old(self)@.image.bytes, final(self)@.image.bytes),
            final(self)@.table == old(self)@.table,
            r matches Err(e) ==> e is WriteFailed,
            r matches Ok(st) ==> st@.len() == props@.len(),
            r matches Ok(st) ==> forall|j: int| 0 <= j < props@.len() ==> state_matches(
                #[trigger] st@[j],
                props@[j],
                ds@[j],
            ),
            fits((old(self)@.image.bytes.len() + samples_room(props@, props@.len() as int)) as nat) ==> r is Ok,
            r is Ok ==> final(self)@.image.bytes.len() <= old(self)@.image.bytes.len() + samples_room(
                props@,
                props@.len() as int,
            ),
            r is Ok ==> samplings_bytes(final(self)@.image.samplings).len() == samplings_bytes(
                old(self)@.image.samplings,
            ).len(),
    {
        let n = props.len();
        let ghost a0 = self@;
        let ghost mut done: Seq<bool> = Seq::new(props@.len(), |j: int| false);
        proof {
            lemma_masked_none(props@, done, props@.len() as int);
        }
        let mut states: Vec<PropertySampleState> = Vec::new();
        let mut i: usize = 0;
        while i < n
            invariant
                i <= n,
                n == props@.len(),
                states@.len() == i,
            decreases n - i,
        {
            states.push(PropertySampleState::default());
            i = i + 1;
        }
        proof {
            lemma_extends_refl(old(self)@.image.bytes);
        }
        let mut k: usize = 0;
        while k < order.len()
            invariant
                k <= order@.len(),
                n == props@.len(),
                ds@.len() == n,
                states@.len() == n,
                all_digests_fit(props@, ds@, props@.len()),
                forall|q: int| 0 <= q < order@.len() ==> #[trigger] order@[q] < n,
                archive_wf(self@),
                same_settings(old(self)@, self@),
                !self@.image.frozen,
                extends(old(self)@.image.bytes, self@.image.bytes),
                self@.table == old(self)@.table,
                order@.len() == n,
                forall|a: int, b: int| 0 <= a < b < order@.len() ==> order@[a] != order@[b],
                forall|q: int| 0 <= q < k ==> state_matches(
                    #[trigger] states@[order@[q] as int],
                    props@[order@[q] as int],
                    ds@[order@[q] as int],
                ),
                a0 == old(self)@,
                done.len() == n,
                forall|j: int| 0 <= j < n && #[trigger] done[j] ==> exists|q: int| 0 <= q < k && order@[q] == j,
                self@.image.bytes.len() <= a0.image.bytes.len() + masked_room(props@, done, n as int),
                samplings_bytes(self@.image.samplings).len() == samplings_bytes(a0.image.samplings).len(),
            decreases order@.len() - k,
        {
            let idx = order[k];
            proof {
                lemma_all_digests_fit(props@, ds@, props@.len(), idx as int);
                if done[idx as int] {
                    let q = choose|q: int| 0 <= q < k && order@[q] == idx;
                    assert(order@[q] != order@[k as int]);
                }
                lemma_masked_mark(props@, done, idx as int, n as int);
                lemma_masked_le(props@, done.update(idx as int, true), n as int);
            }
            let ghost before = self@;
            let st = match self.collect_property_sample_data(&props[idx], &ds[idx]) {
                Ok(st) => st,
                Err(e) => {
                    proof {
                        lemma_extends_trans(old(self)@.image.bytes, before.image.bytes, self@.image.bytes);
                        lemma_collected_room(before, props@[idx as int], ds@[idx as int], Err(e), self@);
                    }
                    return Err(e);
                },
            };
            proof {
                lemma_extends_trans(old(self)@.image.bytes, before.image.bytes, self@.image.bytes);
                lemma_collected_room(before, props@[idx as int], ds@[idx as int], Ok(st), self@);
                let d2 = done.update(idx as int, true);
                assert forall|j: int| 0 <= j < n && #[trigger] d2[j] implies exists|q: int| 0 <= q < k + 1 && order@[q] == j by {
                    if j == idx {
                        assert(order@[k as int] == j);
                    } else {
                        assert(done[j]);
                    }
                }
                done = d2;
            }
            let ghost before_states = states@;
            states.set(idx, st);
            proof {
                assert forall|q: int| 0 <= q < k + 1 implies state_matches(
                    #[trigger] states@[order@[q] as int],
                    props@[order@[q] as int],
                    ds@[order@[q] as int],
                ) by {
                    if q < k {
                        assert(order@[q] != order@[k as int]);
                        assert(states@[order@[q] as int] == before_states[order@[q] as int]);
                    }
                }
            }
            k = k + 1;
        }
        proof {
            assert forall|j: int| 0 <= j < props@.len() implies state_matches(
                #[trigger] states@[j],
                props@[j],
                ds@[j],
            ) by {
                lemma_order_covers(order@, n as int, j);
                let q = choose|q: int| 0 <= q < n && order@[q] == j;
                assert(state_matches(states@[order@[q] as int], props@[order@[q] as int], ds@[order@[q] as int]));
            }
            lemma_masked_le(props@, done, n as int);
        }
        Ok(states)
    }

    /// Write a list of properties and return the position of their group
    /// and of the object header block written with them (0 when no child
    /// objects are given). The samples are written in the order of the
    /// properties' data write order (ties in list order); the property
    /// groups are then written from the last property to the first, the
    /// object header block (the given children's headers and hashes), the
    /// property headers, and the group of the property groups and headers.
    #[verifier::spinoff_prover]
    #[verifier::rlimit(60)]
    pub fn write_properties_with_object_headers(
        &mut self,
        props: &[OProperty],
        ds: &[SampleDigests],
        obj_children: Option<&[OObject]>,
        hashes: (u64, u64, u64, u64),
    ) -> (r: Result<(u64, u64), Error>)
        requires
            archive_wf(old(self)@),
            ds@.len() == props@.len(),
            all_digests_fit(props@, ds@, props@.len()),
        ensures
            properties_written(
                old(self)@,
                final(self)@,
                match obj_children {
                    Some(c) => Some(c@),
                    None => None,
                },
                props@,
                ds@,
                props@.len(),
                r,
            ),
            empty_properties_written(
                old(self)@,
                final(self)@,
                match obj_children {
                    Some(c) => Some(c@),
                    None => None,
                },
                props@,
                r,
            ),
            props_room_written(
                old(self)@,
                final(self)@,
                match obj_children {
                    Some(c) => Some(c@),
                    None => None,
                },
                props@,
                ds@,
                r,
            ),
        decreases props@,
    {
        let ghost a0 = self@;
        proof {
            lemma_extends_refl(a0.image.bytes);
        }
        if self.image.is_frozen() {
            return Err(Error::Frozen);
        }
        let n = props.len();
        let ghost oc_g = match obj_children {
            Some(c) => Some(c@),
            None => None::<Seq<OObject>>,
        };
        let ghost room = properties_room(props@, ds@, oc_g);
        let ghost cond = fits((a0.image.bytes.len() + room) as nat);
        let ghost oc_room: int = match oc_g {
            Some(cs) => objects_room(object_inputs(cs), cs.len() as int) + 40int,
            None => 0int,
        };
        let ghost s_room = samples_room(props@, n as int);
        let ghost g_room = groups_room(props@, ds@, n as int);
        let ghost h_room = props_headers_room(props@, n as int);
        proof {
            lemma_list_room_nonneg(props@, ds@);
            lemma_samples_room_nonneg(props@, n as int);
            lemma_groups_room_nonneg(props@, ds@, n as int);
            lemma_props_headers_room_nonneg(props@, n as int);
            assert(room == list_room(props@, ds@) + oc_room);
            assert(oc_room >= 0);
            assert(n > 0 ==> list_room(props@, ds@) == s_room + g_room + h_room + 8 * n + 24);
        }
        if n == 0 {
            let mut ohp: u64 = 0;
            proof {
                lemma_table_prefix_refl(a0.table);
            }
            match obj_children {
                Some(children) => {
                    let ghost t0 = self@.table;
                    let oh = serialize_object_headers_with_hash(
                        &mut self.index,
                        children,
                        hashes.0,
                        hashes.1,
                        hashes.2,
                        hashes.3,
                    );
                    proof {
                        lemma_object_encoding_prefix(t0, object_inputs(children@));
                        lemma_hash_suffix_len(hashes);
                        lemma_object_headers_len(t0, object_inputs(children@));
                        assert(oh@.len() + 8 <= oc_room);
                        if children@.len() == 0 {
                            assert(object_inputs(children@).len() == 0);
                            assert(oh@.len() == 32);
                            assert(self@.table == t0);
                        }
                    }
                    let ghost before = self@.image.bytes;
                    ohp = match self.write_data_checked(oh.as_slice()) {
                        Ok(p) => p,
                        Err(e) => {
                            return Err(e);
                        },
                    };
                    proof {
                        lemma_appended_data(before, oh@);
                        lemma_header_block_here(self@.image.bytes, ohp, children@, t0, hashes, self@.table);
                    }
                },
                None => {},
            }
            return Ok((0, ohp));
        }
        let mut keys: Vec<u32> = Vec::new();
        let mut i: usize = 0;
        while i < n
            invariant
                i <= n,
                n == props@.len(),
                keys@.len() == i,
            decreases n - i,
        {
            keys.push(props[i].data_write_order);
            i = i + 1;
        }
        let order = stable_order_u32(keys.as_slice());
        proof {
            assert forall|k: int| 0 <= k < order@.len() implies #[trigger] order@[k] < props@.len() by {
                assert(positions(order@)[k] == order@[k] as int);
            }
            assert forall|a: int, b: int| 0 <= a < b < order@.len() implies order@[a] != order@[b] by {
                assert(positions(order@)[a] == order@[a] as int);
                assert(positions(order@)[b] == order@[b] as int);
            }
        }
        let states = match self.collect_in_order(props, ds, &order) {
            Ok(st) => st,
            Err(e) => {
                return Err(e);
            },
        };
        let ghost a1 = self@;
        assert(cond ==> self@.image.bytes.len() <= a0.image.bytes.len() + s_room);
        proof {
            lemma_table_prefix_refl(a0.table);
        }
        let mut positions_v: Vec<u64> = Vec::new();
        let mut i: usize = 0;
        while i < n
            invariant
                i <= n,
                n == props@.len(),
                positions_v@.len() == i,
            decreases n - i,
        {
            positions_v.push(0);
            i = i + 1;
        }
        let mut idx: usize = n;
        while idx > 0
            invariant
                idx <= n,
                n == props@.len(),
                n == ds@.len(),
                states@.len() == n,
                positions_v@.len() == n,
                all_digests_fit(props@, ds@, props@.len()),
                archive_wf(self@),
                same_settings(a0, self@),
                !self@.image.frozen,
                a0 == old(self)@,
                !a0.image.frozen,
                extends(a0.image.bytes, self@.image.bytes),
                table_prefix(a0.table, self@.table),
                property_groups_at(self@.image.bytes, positions_v@, props@, ds@, states@, idx as int, self@.table),
                forall|j: int| 0 <= j < n ==> state_matches(#[trigger] states@[j], props@[j], ds@[j]),
                s_room == samples_room(props@, n as int),
                g_room == groups_room(props@, ds@, n as int),
                room == properties_room(props@, ds@, oc_g),
                oc_g == match obj_children {
                    Some(c) => Some(c@),
                    None => None::<Seq<OObject>>,
                },
                cond == fits((a0.image.bytes.len() + room) as nat),
                s_room + g_room <= room,
                cond ==> self@.image.bytes.len() + groups_room(props@, ds@, idx as int) <= a0.image.bytes.len()
                    + s_room + g_room,
                cond ==> samplings_bytes(self@.image.samplings).len() == samplings_bytes(a0.image.samplings).len(),
            decreases idx,
        {
            idx = idx - 1;
            proof {
                lemma_all_digests_fit(props@, ds@, props@.len(), idx as int);
                lemma_groups_room_nonneg(props@, ds@, idx as int);
                assert(groups_room(props@, ds@, idx + 1) == groups_room(props@, ds@, idx as int) + match props@[idx as int].data {
                    OPropertyData::Compound(sub) => match ds@[idx as int] {
                        SampleDigests::Children(sds) => list_room(sub@, sds@),
                        _ => 0,
                    },
                    OPropertyData::Scalar(s) => (16 * s@.len() + 8) as int,
                    OPropertyData::Array(s) => (16 * s@.len() + 8) as int,
                });
            }
            let ghost before = self@.image.bytes;
            let ghost before_a = self@;
            let ghost table_before = self@.table;
            proof {
                lemma_extends_refl(before);
                lemma_table_prefix_refl(table_before);
            }
            let pos: u64 = match &props[idx].data {
                OPropertyData::Compound(sub) => {
                    let sub_ds = match &ds[idx] {
                        SampleDigests::Children(v) => v,
                        SampleDigests::Samples(_) => {
                            return Err(too_large());
                        },
                    };
                    proof {
                        assert(decreases_to!(props@ => props@[idx as int]));
                        assert(decreases_to!(props@[idx as int] => props@[idx as int].data));
                        assert(decreases_to!(props@ => sub@));
                        assert(ds@[idx as int] == SampleDigests::Children(*sub_ds));
                        assert(groups_room(props@, ds@, idx + 1) == groups_room(props@, ds@, idx as int) + list_room(
                            sub@,
                            sub_ds@,
                        ));
                        assert(properties_room(sub@, sub_ds@, None) == list_room(sub@, sub_ds@));
                        lemma_list_room_nonneg(sub@, sub_ds@);
                        assert(cond ==> fits((before.len() + list_room(sub@, sub_ds@)) as nat));
                    }
                    match self.write_properties_with_object_headers(
                        sub.as_slice(),
                        sub_ds.as_slice(),
                        None,
                        (0, 0, 0, 0),
                    ) {
                        Ok((p, _)) => p,
                        Err(e) => {
                            proof {
                                lemma_extends_trans(a0.image.bytes, before, self@.image.bytes);
                            }
                            return Err(e);
                        },
                    }
                },
                _ => {
                    let ch = &states[idx].children;
                    proof {
                        lemma_state_children_len(states@[idx as int], props@[idx as int], ds@[idx as int]);
                        assert(groups_room(props@, ds@, idx + 1) == groups_room(props@, ds@, idx as int) + 16
                            * sample_count(props@[idx as int]) + 8);
                        assert(cond ==> fits((before.len() + 8 * ch@.len() + 8) as nat));
                    }
                    if ch.len() == 0 {
                        0
                    } else {
                        match self.write_group_checked(ch.as_slice()) {
                            Ok(p) => p,
                            Err(e) => {
                                proof {
                                    lemma_extends_trans(a0.image.bytes, before, self@.image.bytes);
                                }
                                return Err(e);
                            },
                        }
                    }
                },
            };
            proof {
                lemma_extends_trans(a0.image.bytes, before, self@.image.bytes);
                lemma_table_prefix_trans(a0.table, table_before, self@.table);
            }
            let ghost pv_before = positions_v@;
            positions_v.set(idx, pos);
            proof {
                lemma_property_groups_extends(
                    before,
                    self@.image.bytes,
                    pv_before,
                    props@,
                    ds@,
                    states@,
                    idx + 1,
                    table_before,
                    self@.table,
                );
                assert forall|k: int|
                    #![trigger positions_v@[k]]
                    idx <= k < props@.len() implies match props@[k].data {
                        OPropertyData::Compound(sub) => match ds@[k] {
                            SampleDigests::Children(sds) => property_list_at(
                                self@.image.bytes,
                                positions_v@[k],
                                sub@,
                                sds@,
                                self@.table,
                            ),
                            _ => true,
                        },
                        _ => if states@[k].children@.len() == 0 {
                            positions_v@[k] == 0
                        } else {
                            positions_v@[k] >= 16 && group_at(
                                self@.image.bytes,
                                positions_v@[k] as int,
                                states@[k].children@,
                            )
                        },
                    } by {
                    if k > idx {
                        assert(positions_v@[k] == pv_before[k]);
                    }
                }
            }
        }
        let ghost loop_end = self@.image.bytes;
        let ghost loop_table = self@.table;
        proof {
            lemma_extends_refl(loop_end);
            lemma_table_prefix_refl(loop_table);
            assert(cond ==> loop_end.len() <= a0.image.bytes.len() + s_room + g_room);
        }
        let mut ohp: u64 = 0;
        match obj_children {
            Some(children) => {
                let ghost t0 = self@.table;
                let oh = serialize_object_headers_with_hash(
                    &mut self.index,
                    children,
                    hashes.0,
                    hashes.1,
                    hashes.2,
                    hashes.3,
                );
                proof {
                    lemma_object_encoding_prefix(t0, object_inputs(children@));
                    lemma_table_prefix_trans(a0.table, t0, self@.table);
                    lemma_hash_suffix_len(hashes);
                    lemma_object_headers_len(t0, object_inputs(children@));
                    assert(oh@.len() + 8 <= oc_room);
                }
                let ghost before = self@.image.bytes;
                ohp = match self.write_data_checked(oh.as_slice()) {
                    Ok(p) => p,
                    Err(e) => {
                        proof {
                            lemma_extends_trans(a0.image.bytes, before, self@.image.bytes);
                        }
                        return Err(e);
                    },
                };
                proof {
                    lemma_extends_trans(a0.image.bytes, before, self@.image.bytes);
                    lemma_appended_data(before, oh@);
                    lemma_header_block_here(self@.image.bytes, ohp, children@, t0, hashes, self@.table);
                }
            },
            None => {},
        }
        let ghost oh_bytes = self@.image.bytes;
        let ghost oh_table = self@.table;
        let ghost th = self@.table;
        assert(cond ==> oh_bytes.len() <= a0.image.bytes.len() + s_room + g_room + oc_room);
        let headers = serialize_property_headers(&mut self.index, props, states.as_slice());
        proof {
            lemma_headers_encoding_prefix(th, header_inputs(props@, states@));
            lemma_table_prefix_trans(a0.table, th, self@.table);
            lemma_headers_encoding_len(th, header_inputs(props@, states@));
            lemma_headers_room_of(props@, states@, n as int);
            assert(headers@.len() <= h_room);
        }
        let ghost h_table = self@.table;
        let ghost before_h = self@.image.bytes;
        let hp = match self.write_data_checked(headers.as_slice()) {
            Ok(p) => p,
            Err(e) => {
                proof {
                    lemma_extends_trans(a0.image.bytes, before_h, self@.image.bytes);
                }
                return Err(e);
            },
        };
        proof {
            lemma_extends_trans(a0.image.bytes, before_h, self@.image.bytes);
            if headers@.len() > 0 {
                lemma_appended_data(before_h, headers@);
            }
        }
        let ghost after_h = self@.image.bytes;
        proof {
            lemma_extends_trans(loop_end, oh_bytes, after_h);
            assert(table_prefix(loop_table, th));
            lemma_table_prefix_trans(loop_table, th, h_table);
            lemma_property_groups_extends(loop_end, after_h, positions_v@, props@, ds@, states@, 0, loop_table, h_table);
        }
        let mut children: Vec<u64> = Vec::new();
        let mut k: usize = 0;
        while k < n
            invariant
                k <= n,
                positions_v@.len() == n,
                children@ == Seq::new(k as nat, |q: int| group_offset_of(positions_v@[q])),
            decreases n - k,
        {
            children.push(make_group_offset(positions_v[k]));
            assert(children@ =~= Seq::new((k + 1) as nat, |q: int| group_offset_of(positions_v@[q])));
            k = k + 1;
        }
        children.push(make_data_offset(hp));
        assert(children@ =~= property_group_children(positions_v@, hp));
        let ghost before_g = self@.image.bytes;
        let pos = match self.write_group_checked(children.as_slice()) {
            Ok(p) => p,
            Err(e) => {
                proof {
                    lemma_extends_trans(a0.image.bytes, before_g, self@.image.bytes);
                }
                return Err(e);
            },
        };
        proof {
            lemma_extends_trans(a0.image.bytes, before_g, self@.image.bytes);
            assert(group_at(self@.image.bytes, pos as int, property_group_children(positions_v@, hp)));
            assert(positions_v@.len() == props@.len());
            assert(archive_wf(self@));
            assert(extends(old(self)@.image.bytes, self@.image.bytes));
            assert(self@.image.frozen == old(self)@.image.frozen);
        }
        proof {
            match obj_children {
                Some(children) => {
                    lemma_extends_refl(oh_bytes);
                    lemma_extends_trans(before_h, before_g, self@.image.bytes);
                    lemma_extends_trans(oh_bytes, before_h, self@.image.bytes);
                    lemma_header_block_extends(oh_bytes, self@.image.bytes, ohp, children@, oh_table, self@.table);
                },
                None => {},
            }
            let oc = match obj_children {
                Some(c) => Some(c@),
                None => None,
            };
            assert(table_wf(th));
            assert(block_at(after_h, hp as int, headers@));
            assert(block_at(after_h, hp as int, headers_encoding(th, header_inputs(props@, states@)).0));
            lemma_table_prefix_refl(h_table);
            assert(property_headers_at(after_h, hp, positions_v@, props@, ds@, h_table));
            lemma_extends_refl(after_h);
            lemma_extends_trans(after_h, before_g, self@.image.bytes);
            lemma_property_headers_extends(after_h, self@.image.bytes, hp, positions_v@, props@, ds@, h_table, self@.table);
            lemma_properties_written_ok(old(self)@, self@, oc, props@, ds@, props@.len(), pos, ohp, positions_v@, hp);
        }
        Ok((pos, ohp))
    }
}

/// The children of an object's group: its property group, its child
/// objects' groups, and its header block when there is one.
pub open spec fn object_group_children(props_pos: u64, cps: Seq<u64>, hp: u64) -> Seq<u64> {
    seq![group_offset_of(props_pos)] + Seq::new(cps.len(), |k: int| group_offset_of(cps[k])) + (if hp != 0 {
        seq![data_offset_of(hp)]
    } else {
        Seq::<u64>::empty()
    })
}

/// Writing an object either fails because the archive is frozen (nothing
/// written) or because the image would exceed the largest file position;
/// otherwise its group holds its property group, one group per child object
/// and its header block.
pub open spec fn object_written(
    old_a: ArchiveState,
    new_a: ArchiveState,
    children: Seq<OObject>,
    props: Seq<OProperty>,
    pds: Seq<SampleDigests>,
    r: Result<u64, Error>,
) -> bool {
    &&& archive_wf(new_a)
    &&& same_settings(old_a, new_a)
    &&& new_a.image.frozen == old_a.image.frozen
    &&& extends(old_a.image.bytes, new_a.image.bytes)
    &&& (r is Ok ==> table_prefix(old_a.table, new_a.table))
    &&& old_a.image.frozen ==> (r matches Err(Error::Frozen) && new_a == old_a)
    &&& (r matches Err(e) ==> old_a.image.frozen || e is WriteFailed)
    &&& (r matches Ok(pos) ==> pos >= 16 && object_group_at(new_a.image.bytes, pos, children, props, pds, new_a.table))
}

/// An object is written without fail whenever its room fits: the image then
/// grows by at most that room, and the time sampling table keeps its size.
pub open spec fn object_room_written(
    old_a: ArchiveState,
    new_a: ArchiveState,
    o: OObject,
    d: ObjectDigests,
    r: Result<u64, Error>,
) -> bool {
    (!old_a.image.frozen && fits((old_a.image.bytes.len() + object_room(o, d)) as nat)) ==> (r is Ok
        && new_a.image.bytes.len() <= old_a.image.bytes.len() + object_room(o, d) && samplings_bytes(
        new_a.image.samplings,
    ).len() == samplings_bytes(old_a.image.samplings).len())
}

proof fn lemma_children_room_step(os: Seq<OObject>, ds: Seq<ObjectDigests>, k: int)
    requires
        0 <= k < os.len(),
    ensures
        children_room(os, ds, k + 1) == children_room(os, ds, k) + object_room(os[k], ds[k]),
        children_room(os, ds, k + 1) <= children_room(os, ds, os.len() as int),
        object_room(os[k], ds[k]) >= 0,
        children_room(os, ds, k) >= 0,
{
    lemma_object_room_nonneg(os[k], ds[k]);
    lemma_children_room_nonneg(os, ds, k);
    lemma_children_room_mono(os, ds, k + 1, os.len() as int);
}

proof fn lemma_children_room_mono(os: Seq<OObject>, ds: Seq<ObjectDigests>, i: int, n: int)
    requires
        0 <= i <= n <= os.len(),
    ensures
        children_room(os, ds, i) <= children_room(os, ds, n),
    decreases n - i,
{
    if i < n {
        lemma_children_room_mono(os, ds, i, n - 1);
        lemma_object_room_nonneg(os[n - 1], ds[n - 1]);
    }
}

/// An object with neither children nor properties is written without fail
/// whenever 64 more bytes fit: its header block (the digests) and its group.
pub open spec fn empty_object_written(
    old_a: ArchiveState,
    new_a: ArchiveState,
    children: Seq<OObject>,
    props: Seq<OProperty>,
    r: Result<u64, Error>,
) -> bool {
    (!old_a.image.frozen && children.len() == 0 && props.len() == 0 && fits(old_a.image.bytes.len() + 64)) ==> (
    r is Ok && new_a.table == old_a.table && new_a.image.samplings == old_a.image.samplings
        && new_a.image.bytes.len() <= old_a.image.bytes.len() + 64)
}

/// The group at `pos` is that of an object with the given children: its
/// property group, one group per child and the header block of the
/// children (against a table that `t` extends).
pub open spec fn object_group_at(
    bytes: Seq<u8>,
    pos: u64,
    children: Seq<OObject>,
    props: Seq<OProperty>,
    pds: Seq<SampleDigests>,
    t: Seq<Seq<char>>,
) -> bool {
    exists|pp: u64, cps: Seq<u64>, hp: u64|
        cps.len() == children.len() && #[trigger] group_at(bytes, pos as int, object_group_children(pp, cps, hp))
            && hp >= 16 && header_block_at(bytes, hp, children, t) && property_list_at(bytes, pp, props, pds, t)
}

proof fn lemma_object_written_ok(
    a0: ArchiveState,
    a1: ArchiveState,
    children: Seq<OObject>,
    props: Seq<OProperty>,
    pds: Seq<SampleDigests>,
    pos: u64,
    pp: u64,
    cps: Seq<u64>,
    hp: u64,
)
    requires
        archive_wf(a1),
        same_settings(a0, a1),
        !a0.image.frozen,
        !a1.image.frozen,
        extends(a0.image.bytes, a1.image.bytes),
        table_prefix(a0.table, a1.table),
        cps.len() == children.len(),
        pos >= 16,
        hp >= 16,
        header_block_at(a1.image.bytes, hp, children, a1.table),
        property_list_at(a1.image.bytes, pp, props, pds, a1.table),
        group_at(a1.image.bytes, pos as int, object_group_children(pp, cps, hp)),
    ensures
        object_written(a0, a1, children, props, pds, Ok(pos)),
{
    assert(object_group_at(a1.image.bytes, pos, children, props, pds, a1.table));
}

/// An object group stays what it was as the image grows and the table
/// gains entries.
proof fn lemma_object_group_extends(
    a: Seq<u8>,
    b: Seq<u8>,
    pos: u64,
    children: Seq<OObject>,
    props: Seq<OProperty>,
    pds: Seq<SampleDigests>,
    t1: Seq<Seq<char>>,
    t2: Seq<Seq<char>>,
)
    requires
        object_group_at(a, pos, children, props, pds, t1),
        extends(a, b),
        table_prefix(t1, t2),
    ensures
        object_group_at(b, pos, children, props, pds, t2),
{
    let (pp, cps, hp) = choose|pp: u64, cps: Seq<u64>, hp: u64|
        cps.len() == children.len() && #[trigger] group_at(a, pos as int, object_group_children(pp, cps, hp))
            && hp >= 16 && header_block_at(a, hp, children, t1) && property_list_at(a, pp, props, pds, t1);
    lemma_group_at_extends_to(a, b, pos as int, object_group_children(pp, cps, hp));
    lemma_header_block_extends(a, b, hp, children, t1, t2);
    lemma_property_list_extends(a, b, pp, props, pds, t1, t2);
}

proof fn lemma_group_at_extends_to(a: Seq<u8>, b: Seq<u8>, pos: int, cs: Seq<u64>)
    requires
        group_at(a, pos, cs),
        extends(a, b),
    ensures
        group_at(b, pos, cs),
{
    assert(b.subrange(pos, pos + 8 + 8 * cs.len()) =~= a.subrange(pos, pos + 8 + 8 * cs.len())) by {
        assert(b.subrange(pos, pos + 8 + 8 * cs.len()) =~= b.subrange(0, a.len() as int).subrange(
            pos,
            pos + 8 + 8 * cs.len(),
        ));
    }
}

impl OArchive {
    /// Write an object: its children first (each its whole subtree), then its
    /// properties with its header block (its children's headers and its two
    /// hashes), then its group. Returns the group's position.
    pub fn write_object(&mut self, obj: &OObject, d: &ObjectDigests) -> (r: Result<u64, Error>)
        requires
            archive_wf(old(self)@),
            object_digests_fit(*obj, *d),
        ensures
            object_written(old(self)@, final(self)@, obj.children@, obj.properties@, d.properties@, r),
            empty_object_written(old(self)@, final(self)@, obj.children@, obj.properties@, r),
            object_room_written(old(self)@, final(self)@, *obj, *d, r),
        decreases *obj,
    {
        let ghost a0 = self@;
        proof {
            lemma_extends_refl(a0.image.bytes);
        }
        if self.image.is_frozen() {
            return Err(Error::Frozen);
        }
        proof {
            lemma_table_prefix_refl(a0.table);
        }
        let n = obj.children.len();
        let ghost room = object_room(*obj, *d);
        let ghost cond = fits((a0.image.bytes.len() + room) as nat);
        let ghost c_room = children_room(obj.children@, d.children@, n as int);
        let ghost p_room = properties_room(obj.properties@, d.properties@, Some(obj.children@));
        proof {
            lemma_children_room_nonneg(obj.children@, d.children@, n as int);
            lemma_list_room_nonneg(obj.properties@, d.properties@);
            assert(room == c_room + p_room + 8 * n + 24);
            assert(p_room >= 0);
        }
        let mut child_positions: Vec<u64> = Vec::new();
        let mut k: usize = 0;
        while k < n
            invariant
                k <= n,
                n == obj.children@.len(),
                n == d.children@.len(),
                child_positions@.len() == k,
                all_object_digests_fit(obj.children@, d.children@, obj.children@.len()),
                archive_wf(self@),
                same_settings(a0, self@),
                !self@.image.frozen,
                a0 == old(self)@,
                !a0.image.frozen,
                extends(a0.image.bytes, self@.image.bytes),
                table_prefix(a0.table, self@.table),
                k == 0 ==> self@ == a0,
                room == object_room(*obj, *d),
                c_room == children_room(obj.children@, d.children@, n as int),
                cond == fits((a0.image.bytes.len() + room) as nat),
                room == c_room + p_room + 8 * n + 24,
                p_room >= 0,
                cond ==> self@.image.bytes.len() <= a0.image.bytes.len() + children_room(
                    obj.children@,
                    d.children@,
                    k as int,
                ),
                cond ==> samplings_bytes(self@.image.samplings).len() == samplings_bytes(a0.image.samplings).len(),
            decreases n - k,
        {
            proof {
                lemma_children_room_step(obj.children@, d.children@, k as int);
                lemma_all_object_digests_fit(obj.children@, d.children@, obj.children@.len(), k as int);
                assert(decreases_to!(*obj => obj.children));
                assert(decreases_to!(obj.children => obj.children@));
                assert(decreases_to!(obj.children@ => obj.children@[k as int]));
            }
            let ghost before = self@.image.bytes;
            let ghost table_before = self@.table;
            let p = match self.write_object(&obj.children[k], &d.children[k]) {
                Ok(p) => p,
                Err(e) => {
                    proof {
                        lemma_extends_trans(a0.image.bytes, before, self@.image.bytes);
                    }
                    return Err(e);
                },
            };
            proof {
                lemma_extends_trans(a0.image.bytes, before, self@.image.bytes);
                lemma_table_prefix_trans(a0.table, table_before, self@.table);
            }
            child_positions.push(p);
            k = k + 1;
        }
        let ghost before_p = self@.image.bytes;
        let ghost table_p = self@.table;
        let (props_pos, headers_pos) = match self.write_properties_with_object_headers(
            obj.properties.as_slice(),
            d.properties.as_slice(),
            Some(obj.children.as_slice()),
            (d.data_hash.0, d.data_hash.1, d.child_hash.0, d.child_hash.1),
        ) {
            Ok(x) => x,
            Err(e) => {
                proof {
                    lemma_extends_trans(a0.image.bytes, before_p, self@.image.bytes);
                }
                return Err(e);
            },
        };
        proof {
            lemma_extends_trans(a0.image.bytes, before_p, self@.image.bytes);
            lemma_table_prefix_trans(a0.table, table_p, self@.table);
        }
        let ghost after_p = self@.image.bytes;
        let mut children: Vec<u64> = Vec::new();
        children.push(make_group_offset(props_pos));
        let mut k: usize = 0;
        while k < n
            invariant
                k <= n,
                child_positions@.len() == n,
                children@ == seq![group_offset_of(props_pos)] + Seq::new(k as nat, |q: int| group_offset_of(child_positions@[q])),
            decreases n - k,
        {
            children.push(make_group_offset(child_positions[k]));
            assert(children@ =~= seq![group_offset_of(props_pos)] + Seq::new((k + 1) as nat, |q: int| group_offset_of(child_positions@[q])));
            k = k + 1;
        }
        if headers_pos != 0 {
            children.push(make_data_offset(headers_pos));
        }
        assert(children@ =~= object_group_children(props_pos, child_positions@, headers_pos));
        let ghost before_g = self@.image.bytes;
        let pos = match self.write_group_checked(children.as_slice()) {
            Ok(p) => p,
            Err(e) => {
                proof {
                    lemma_extends_trans(a0.image.bytes, before_g, self@.image.bytes);
                }
                return Err(e);
            },
        };
        proof {
            lemma_extends_trans(a0.image.bytes, before_g, self@.image.bytes);
            lemma_extends_refl(after_p);
            lemma_extends_trans(after_p, before_g, self@.image.bytes);
            lemma_table_prefix_refl(self@.table);
            lemma_header_block_extends(after_p, self@.image.bytes, headers_pos, obj.children@, self@.table, self@.table);
            lemma_property_list_extends(after_p, self@.image.bytes, props_pos, obj.properties@, d.properties@, self@.table, self@.table);
            lemma_object_written_ok(a0, self@, obj.children@, obj.properties@, d.properties@, pos, props_pos, child_positions@, headers_pos);
        }
        Ok(pos)
    }
}

/// The bytes at `pos` are the data block holding `data`.
pub open spec fn data_at(bytes: Seq<u8>, pos: int, data: Seq<u8>) -> bool {
    0 <= pos && pos + 8 + data.len() <= bytes.len() && bytes.subrange(pos, pos + 8 + data.len()) == data_block(
        data,
    )
}

/// A block that is written only when non-empty: position 0 for no bytes,
/// else the data block at `pos`.
pub open spec fn block_at(bytes: Seq<u8>, pos: int, data: Seq<u8>) -> bool {
    if data.len() == 0 {
        pos == 0
    } else {
        data_at(bytes, pos, data)
    }
}

/// The children of the root group: the file version, the library version,
/// the root object's group, the archive metadata, the time sampling table
/// and the indexed metadata table.
pub open spec fn root_children(v: u64, fv: u64, obj: u64, meta: u64, ts: u64, idx: u64) -> Seq<u64> {
    seq![
        data_offset_of(v),
        data_offset_of(fv),
        group_offset_of(obj),
        data_offset_of(meta),
        data_offset_of(ts),
        data_offset_of(idx),
    ]
}

/// `key` is set in a metadata list.
pub open spec fn has_key(pairs: Seq<(Seq<char>, Seq<char>)>, key: Seq<char>) -> bool {
    exists|i: int| is_first_key_index(pairs, key, i)
}

/// The archive metadata stored when freezing: the application writer is
/// added when no application is set, and the library version text is set
/// unless the metadata came from a copy that already carries one.
pub open spec fn final_archive_metadata(a: ArchiveState) -> Seq<(Seq<char>, Seq<char>)> {
    let m1 = if !has_key(a.archive_metadata, "_ai_Application"@) && a.application_writer.len() > 0 {
        pairs_with(a.archive_metadata, "_ai_Application"@, a.application_writer)
    } else {
        a.archive_metadata
    };
    if !a.preserve_archive_metadata || !has_key(m1, "_ai_AlembicVersion"@) {
        pairs_with(
            m1,
            "_ai_AlembicVersion"@,
            alembic_version_text(a.library_version as int, a.build_date, a.build_time),
        )
    } else {
        m1
    }
}

/// What freezing an archive leaves in its image: the bytes written before
/// (`b`, which begins with everything the image held) with the frozen flag
/// and the root group position set, the root group and each block it lists.
pub open spec fn archive_layout(old_a: ArchiveState, new_a: ArchiveState, children: Seq<OObject>, props: Seq<OProperty>, pds: Seq<SampleDigests>, b: Seq<u8>, root: u64, v: u64, fv: u64, obj: u64, meta: u64, ts: u64, idx: u64) -> bool {
    &&& object_group_at(new_a.image.bytes, obj, children, props, pds, new_a.table)
    &&& extends(old_a.image.bytes, b)
    &&& b.len() >= 16
    &&& fits(b.len())
    &&& root >= 16
    &&& v >= 16
    &&& fv >= 16
    &&& placed(meta as int, encode_utf8(metadata_text(final_archive_metadata(old_a))))
    &&& placed(ts as int, samplings_bytes(new_a.image.samplings))
    &&& placed(idx as int, table_bytes(new_a.table.drop_first()))
    &&& new_a.image.bytes == frozen_bytes(b, root)
    &&& group_at(new_a.image.bytes, root as int, root_children(v, fv, obj, meta, ts, idx))
    &&& data_at(new_a.image.bytes, v as int, i32_le(OGAWA_FILE_VERSION))
    &&& data_at(new_a.image.bytes, fv as int, i32_le(old_a.library_version))
    &&& obj >= 16
    &&& block_at(new_a.image.bytes, meta as int, encode_utf8(metadata_text(final_archive_metadata(old_a))))
    &&& block_at(new_a.image.bytes, ts as int, samplings_bytes(new_a.image.samplings))
    &&& block_at(new_a.image.bytes, idx as int, table_bytes(new_a.table.drop_first()))
}

/// The bytes that freezing an archive around a root with neither children
/// nor properties takes at most: the two version blocks, the root object,
/// the archive metadata, time sampling and indexed metadata blocks, and the
/// root group of six children.
pub open spec fn empty_root_room(a: ArchiveState) -> nat {
    (168 + encode_utf8(metadata_text(final_archive_metadata(a))).len() + samplings_bytes(a.image.samplings).len()
        + table_bytes(a.table.drop_first()).len()) as nat
}

/// The most bytes that freezing an archive around `root` takes: the two
/// version blocks, the root object, the archive metadata, the time sampling
/// table (whose size writing samples keeps), the indexed metadata table (at
/// most `table_room()`), and the root group of six children.
pub open spec fn archive_room(a: ArchiveState, root: OObject, d: ObjectDigests) -> int {
    object_room(root, d) + 104 + encode_utf8(metadata_text(final_archive_metadata(a))).len()
        + samplings_bytes(a.image.samplings).len() + table_room()
}

/// A non-empty block lies after the header.
pub open spec fn placed(pos: int, data: Seq<u8>) -> bool {
    data.len() > 0 ==> pos >= 16
}

/// Freezing either fails because the archive is already frozen (nothing
/// changes) or because the image would exceed the largest file position;
/// otherwise the archive is frozen with the layout above.
pub open spec fn archive_written(old_a: ArchiveState, new_a: ArchiveState, children: Seq<OObject>, props: Seq<OProperty>, pds: Seq<SampleDigests>, r: Result<(), Error>) -> bool {
    &&& archive_wf(new_a)
    &&& old_a.image.frozen ==> (r matches Err(Error::Frozen) && new_a == old_a)
    &&& (r matches Err(e) ==> old_a.image.frozen || e is WriteFailed)
    &&& (r is Ok ==> new_a.image.frozen && exists|b: Seq<u8>, root: u64, v: u64, fv: u64, obj: u64, meta: u64, ts: u64, idx: u64|
        #[trigger] archive_layout(old_a, new_a, children, props, pds, b, root, v, fv, obj, meta, ts, idx))
}

proof fn lemma_frozen_keeps(b: Seq<u8>, root: u64, pos: int, len: int)
    requires
        b.len() >= 16,
        16 <= pos,
        0 <= len,
        pos + len <= b.len(),
    ensures
        frozen_bytes(b, root).len() == b.len(),
        frozen_bytes(b, root).subrange(pos, pos + len) == b.subrange(pos, pos + len),
{
    crate::ogawa::le::lemma_le_bytes_len(root as nat, 8);
    assert(frozen_bytes(b, root).subrange(pos, pos + len) =~= b.subrange(pos, pos + len));
}

proof fn lemma_data_at_extends(a: Seq<u8>, b: Seq<u8>, pos: int, data: Seq<u8>)
    requires
        data_at(a, pos, data),
        extends(a, b),
    ensures
        data_at(b, pos, data),
{
    assert(b.subrange(pos, pos + 8 + data.len()) =~= a.subrange(pos, pos + 8 + data.len()));
}

proof fn lemma_block_at_extends(a: Seq<u8>, b: Seq<u8>, pos: int, data: Seq<u8>)
    requires
        block_at(a, pos, data),
        extends(a, b),
    ensures
        block_at(b, pos, data),
{
    if data.len() > 0 {
        lemma_data_at_extends(a, b, pos, data);
    }
}

proof fn lemma_appended_data(a: Seq<u8>, data: Seq<u8>)
    ensures
        data_at(a + data_block(data), a.len() as int, data),
{
    crate::ogawa::le::lemma_le_bytes_len(data.len(), 8);
    assert((a + data_block(data)).subrange(a.len() as int, (a.len() + 8 + data.len()) as int) =~= data_block(data));
}

proof fn lemma_data_at_frozen(b: Seq<u8>, root: u64, pos: int, data: Seq<u8>)
    requires
        b.len() >= 16,
        pos >= 16,
        data_at(b, pos, data),
    ensures
        data_at(frozen_bytes(b, root), pos, data),
{
    lemma_frozen_keeps(b, root, pos, (8 + data.len()) as int);
}

proof fn lemma_block_at_frozen(b: Seq<u8>, root: u64, pos: int, data: Seq<u8>)
    requires
        b.len() >= 16,
        data.len() > 0 ==> pos >= 16,
        block_at(b, pos, data),
    ensures
        block_at(frozen_bytes(b, root), pos, data),
{
    if data.len() > 0 {
        lemma_data_at_frozen(b, root, pos, data);
    }
}

proof fn lemma_group_at_frozen(b: Seq<u8>, root: u64, pos: int, cs: Seq<u64>)
    requires
        b.len() >= 16,
        pos >= 16,
        group_at(b, pos, cs),
    ensures
        group_at(frozen_bytes(b, root), pos, cs),
{
    lemma_frozen_keeps(b, root, pos, (8 + 8 * cs.len()) as int);
}

proof fn lemma_archive_written_ok(old_a: ArchiveState, new_a: ArchiveState, children: Seq<OObject>, props: Seq<OProperty>, pds: Seq<SampleDigests>, b: Seq<u8>, root: u64, v: u64, fv: u64, obj: u64, meta: u64, ts: u64, idx: u64)
    requires
        archive_wf(new_a),
        !old_a.image.frozen,
        new_a.image.frozen,
        archive_layout(old_a, new_a, children, props, pds, b, root, v, fv, obj, meta, ts, idx),
    ensures
        archive_written(old_a, new_a, children, props, pds, Ok(())),
{
    let r: Result<(), Error> = Ok(());
    assert(exists|b2: Seq<u8>, root2: u64, v2: u64, fv2: u64, obj2: u64, meta2: u64, ts2: u64, idx2: u64|
        #[trigger] archive_layout(old_a, new_a, children, props, pds, b2, root2, v2, fv2, obj2, meta2, ts2, idx2));
}

/// An object group keeps its contents when the header is frozen.
proof fn lemma_object_group_frozen(
    b: Seq<u8>,
    root: u64,
    pos: u64,
    children: Seq<OObject>,
    props: Seq<OProperty>,
    pds: Seq<SampleDigests>,
    t: Seq<Seq<char>>,
)
    requires
        b.len() >= 16,
        pos >= 16,
        object_group_at(b, pos, children, props, pds, t),
    ensures
        object_group_at(frozen_bytes(b, root), pos, children, props, pds, t),
{
    let (pp, cps, hp) = choose|pp: u64, cps: Seq<u64>, hp: u64|
        cps.len() == children.len() && #[trigger] group_at(b, pos as int, object_group_children(pp, cps, hp))
            && hp >= 16 && header_block_at(b, hp, children, t) && property_list_at(b, pp, props, pds, t);
    lemma_group_at_frozen(b, root, pos as int, object_group_children(pp, cps, hp));
    lemma_property_list_frozen(b, root, pp, props, pds, t);
    let (tk, h) = choose|tk: Seq<Seq<char>>, h: (u64, u64, u64, u64)|
        #[trigger] data_at(
            b,
            hp as int,
            object_headers_encoding(tk, object_inputs(children)).0 + hash_suffix(h.0, h.1, h.2, h.3),
        ) && table_wf(tk) && table_prefix(object_headers_encoding(tk, object_inputs(children)).1, t);
    lemma_data_at_frozen(
        b,
        root,
        hp as int,
        object_headers_encoding(tk, object_inputs(children)).0 + hash_suffix(h.0, h.1, h.2, h.3),
    );
    assert(header_block_at(frozen_bytes(b, root), hp, children, t));
}

impl OArchive {
    fn write_block(&mut self, data: &[u8]) -> (r: Result<u64, Error>)
        requires
            archive_wf(old(self)@),
            !old(self)@.image.frozen,
        ensures
            archive_wf(final(self)@),
            final(self)@.table == old(self)@.table,
            final(self)@.image.samplings == old(self)@.image.samplings,
            !final(self)@.image.frozen,
            extends(old(self)@.image.bytes, final(self)@.image.bytes),
            final(self)@ == (ArchiveState { image: final(self)@.image, ..old(self)@ }),
            r matches Err(e) ==> e is WriteFailed,
            r matches Ok(p) ==> block_at(final(self)@.image.bytes, p as int, data@) && (data@.len() > 0 ==> p >= 16),
            fits(old(self)@.image.bytes.len() + data@.len() + 8) ==> r is Ok,
            r is Ok ==> final(self)@.image.bytes.len() <= old(self)@.image.bytes.len() + data@.len() + 8,
    {
        proof {
            lemma_extends_refl(old(self)@.image.bytes);
            lemma_extends_append(old(self)@.image.bytes, data_block(data@));
            lemma_appended_data(old(self)@.image.bytes, data@);
            crate::ogawa::le::lemma_le_bytes_len(data@.len(), 8);
        }
        if !self.room_ok(data.len() as u128 + 8) {
            return Err(too_large());
        }
        self.image.write_data(data)
    }

    /// Write the archive around `root` and freeze it: the file version and
    /// library version blocks, the root object, the archive metadata, the
    /// time sampling table, the indexed metadata table, the root group, and
    /// then the frozen flag and root position in the header.
    #[verifier::spinoff_prover]
    #[verifier::rlimit(40)]
    pub fn write_archive(&mut self, root: &OObject, d: &ObjectDigests) -> (r: Result<(), Error>)
        requires
            archive_wf(old(self)@),
            object_digests_fit(*root, *d),
        ensures
            archive_written(old(self)@, final(self)@, root.children@, root.properties@, d.properties@, r),
            !old(self)@.image.frozen && root.children@.len() == 0 && root.properties@.len() == 0 && fits(
                old(self)@.image.bytes.len() + empty_root_room(old(self)@),
            ) ==> r is Ok,
            !old(self)@.image.frozen && fits((old(self)@.image.bytes.len() + archive_room(old(self)@, *root, *d)) as nat)
                ==> r is Ok,
    {
        let ghost a0 = self@;
        if self.image.is_frozen() {
            return Err(Error::Frozen);
        }
        let ghost full = fits((a0.image.bytes.len() + archive_room(a0, *root, *d)) as nat);
        let ghost o_room = object_room(*root, *d);
        let ghost m_len = encode_utf8(metadata_text(final_archive_metadata(a0))).len();
        let ghost s_len = samplings_bytes(a0.image.samplings).len();
        proof {
            lemma_object_room_nonneg(*root, *d);
        }
        let ghost cond = root.children@.len() == 0 && root.properties@.len() == 0 && fits(
            a0.image.bytes.len() + empty_root_room(a0),
        );
        proof {
            crate::ogawa::le::lemma_le_bytes_len(0, 4);
            crate::ogawa::le::lemma_le_bytes_len(a0.library_version as u32 as nat, 4);
        }
        let vb = i32_le_bytes(OGAWA_FILE_VERSION);
        let v = match self.write_block(vb.as_slice()) {
            Ok(p) => p,
            Err(e) => {
                return Err(e);
            },
        };
        let ghost s1 = self@.image.bytes;
        assert(cond ==> s1.len() <= a0.image.bytes.len() + 12);
        assert(full ==> s1.len() <= a0.image.bytes.len() + 12);
        let fvb = i32_le_bytes(self.library_version);
        let fv = match self.write_block(fvb.as_slice()) {
            Ok(p) => p,
            Err(e) => {
                return Err(e);
            },
        };
        let ghost s2 = self@.image.bytes;
        assert(cond ==> s2.len() <= a0.image.bytes.len() + 24);
        assert(full ==> s2.len() <= a0.image.bytes.len() + 24);
        assert(self@.table == a0.table && self@.image.samplings == a0.image.samplings);
        let obj = match self.write_object(root, d) {
            Ok(p) => p,
            Err(e) => {
                return Err(e);
            },
        };
        let ghost s3 = self@.image.bytes;
        let ghost t3 = self@.table;
        assert(cond ==> s3.len() <= a0.image.bytes.len() + 88 && t3 == a0.table && self@.image.samplings
            == a0.image.samplings);
        assert(full ==> s3.len() <= a0.image.bytes.len() + 24 + o_room && samplings_bytes(self@.image.samplings).len()
            == s_len);
        let mut meta = self.archive_metadata.duplicate();
        let app = meta.get("_ai_Application");
        if app.is_none() && !self.application_writer.as_str().is_empty() {
            meta.set("_ai_Application", self.application_writer.as_str());
        }
        let ver = meta.get("_ai_AlembicVersion");
        if !self.preserve_archive_metadata || ver.is_none() {
            let text = format_alembic_version(self.library_version, self.build_date.as_str(), self.build_time.as_str());
            meta.set("_ai_AlembicVersion", text.as_str());
        }
        proof {
            reveal_strlit("_ai_Application");
            reveal_strlit("_ai_AlembicVersion");
            assert(metadata_pairs(meta) == final_archive_metadata(a0));
        }
        let meta_str = meta.serialize();
        let meta_pos = match self.write_block(meta_str.as_str().as_bytes()) {
            Ok(p) => p,
            Err(e) => {
                return Err(e);
            },
        };
        let ghost s4 = self@.image.bytes;
        assert(cond ==> s4.len() <= a0.image.bytes.len() + 96 + encode_utf8(
            metadata_text(final_archive_metadata(a0)),
        ).len());
        assert(full ==> s4.len() <= a0.image.bytes.len() + 32 + o_room + m_len);
        let tsb = self.image.serialize_time_samplings();
        let ts = match self.write_block(tsb.as_slice()) {
            Ok(p) => p,
            Err(e) => {
                return Err(e);
            },
        };
        let ghost s5 = self@.image.bytes;
        assert(cond ==> s5.len() <= a0.image.bytes.len() + 104 + encode_utf8(
            metadata_text(final_archive_metadata(a0)),
        ).len() + samplings_bytes(a0.image.samplings).len());
        assert(full ==> s5.len() <= a0.image.bytes.len() + 40 + o_room + m_len + s_len);
        proof {
            lemma_table_room(self@.table);
        }
        let ib = self.index.serialize_indexed_metadata();
        let idx = match self.write_block(ib.as_slice()) {
            Ok(p) => p,
            Err(e) => {
                return Err(e);
            },
        };
        let ghost s6 = self@.image.bytes;
        assert(cond ==> s6.len() + 56 <= a0.image.bytes.len() + empty_root_room(a0));
        assert(full ==> s6.len() + 56 <= a0.image.bytes.len() + archive_room(a0, *root, *d));
        let mut rc: Vec<u64> = Vec::new();
        rc.push(make_data_offset(v));
        rc.push(make_data_offset(fv));
        rc.push(make_group_offset(obj));
        rc.push(make_data_offset(meta_pos));
        rc.push(make_data_offset(ts));
        rc.push(make_data_offset(idx));
        assert(rc@ =~= root_children(v, fv, obj, meta_pos, ts, idx));
        let root_pos = match self.write_group_checked(rc.as_slice()) {
            Ok(p) => p,
            Err(e) => {
                return Err(e);
            },
        };
        let ghost b = self@.image.bytes;
        proof {
            lemma_extends_trans(s1, s2, s3);
            lemma_extends_trans(s3, s4, s5);
            lemma_extends_trans(s5, s6, b);
            lemma_extends_trans(s1, s3, s5);
            lemma_extends_trans(s1, s5, b);
            lemma_extends_trans(s2, s3, s5);
            lemma_extends_trans(s2, s5, b);
            lemma_extends_trans(s3, s5, b);
            lemma_extends_trans(s4, s5, b);
            lemma_extends_trans(a0.image.bytes, s1, b);
            lemma_block_at_extends(s1, b, v as int, vb@);
            lemma_block_at_extends(s2, b, fv as int, fvb@);
            lemma_block_at_extends(s4, b, meta_pos as int, encode_utf8(meta_str@));
            lemma_block_at_extends(s5, b, ts as int, tsb@);
            lemma_block_at_extends(s6, b, idx as int, ib@);
            lemma_table_prefix_refl(t3);
            lemma_object_group_extends(s3, b, obj, root.children@, root.properties@, d.properties@, t3, t3);
        }
        self.image.freeze(root_pos);
        proof {
            crate::ogawa::le::lemma_le_bytes_len(0, 4);
            crate::ogawa::le::lemma_le_bytes_len(a0.library_version as u32 as nat, 4);
            lemma_group_at_frozen(b, root_pos, root_pos as int, rc@);
            lemma_block_at_frozen(b, root_pos, v as int, vb@);
            lemma_block_at_frozen(b, root_pos, fv as int, fvb@);
            lemma_block_at_frozen(b, root_pos, meta_pos as int, encode_utf8(meta_str@));
            lemma_block_at_frozen(b, root_pos, ts as int, tsb@);
            lemma_block_at_frozen(b, root_pos, idx as int, ib@);
            assert(archive_wf(self@));
            lemma_object_group_frozen(b, root_pos, obj, root.children@, root.properties@, d.properties@, t3);
            lemma_archive_written_ok(a0, self@, root.children@, root.properties@, d.properties@, b, root_pos, v, fv, obj, meta_pos, ts, idx);
        }
        Ok(())
    }
}

impl OArchive {
    /// Append a data block and return its position (0 for no bytes). Fails
    /// once frozen, or when the image would exceed the largest position.
    pub fn write_data(&mut self, data: &[u8]) -> (r: Result<u64, Error>)
        requires
            archive_wf(old(self)@),
        ensures
            archive_wf(final(self)@),
            old(self)@.image.frozen ==> (r matches Err(Error::Frozen) && final(self)@ == old(self)@),
            !old(self)@.image.frozen ==> (r matches Err(e) ==> e is WriteFailed && final(self)@ == old(self)@),
            !old(self)@.image.frozen ==> (r is Err <==> !fits(old(self)@.image.bytes.len() + data@.len() + 8)),
            !old(self)@.image.frozen ==> (r matches Ok(p) ==> final(self)@ == (ArchiveState {
                image: data_write(old(self)@.image, data@).0,
                ..old(self)@
            }) && p == data_write(old(self)@.image, data@).1),
    {
        if self.image.is_frozen() {
            return Err(Error::Frozen);
        }
        if !self.room_ok(data.len() as u128 + 8) {
            return Err(too_large());
        }
        self.image.write_data(data)
    }

    /// Append a group of child offsets and return its position (0 for no
    /// children). Fails once frozen, or when the image would exceed the
    /// largest position.
    pub fn write_group(&mut self, children: &[u64]) -> (r: Result<u64, Error>)
        requires
            archive_wf(old(self)@),
        ensures
            archive_wf(final(self)@),
            old(self)@.image.frozen ==> (r matches Err(Error::Frozen) && final(self)@ == old(self)@),
            !old(self)@.image.frozen ==> (r matches Err(e) ==> e is WriteFailed && final(self)@ == old(self)@),
            !old(self)@.image.frozen ==> (r is Err <==> children@.len() > 0 && !fits(
                old(self)@.image.bytes.len() + 8 * children@.len() + 8,
            )),
            !old(self)@.image.frozen && children@.len() == 0 ==> (r == Ok::<u64, Error>(0) && final(self)@
                == old(self)@),
            !old(self)@.image.frozen && children@.len() > 0 ==> (r matches Ok(p) ==> p
                == old(self)@.image.bytes.len() && final(self)@ == (ArchiveState {
                image: ImageView { bytes: old(self)@.image.bytes + group_block(children@), ..old(self)@.image },
                ..old(self)@
            })),
    {
        if self.image.is_frozen() {
            return Err(Error::Frozen);
        }
        if children.len() == 0 {
            return Ok(0);
        }
        if !self.room_ok(8 * (children.len() as u128) + 8) {
            return Err(too_large());
        }
        self.image.write_group(children)
    }

    /// Write a sample in its stored form under its key (digest of the stored
    /// form, its size, the type tag); with sharing on an identical sample
    /// written before gives back its position.
    pub fn write_keyed_data(&mut self, data: &[u8], digest: (u64, u64), pod: PlainOldDataType) -> (r: Result<u64, Error>)
        requires
            archive_wf(old(self)@),
        ensures
            archive_wf(final(self)@),
            old(self)@.image.frozen ==> (r matches Err(Error::Frozen) && final(self)@ == old(self)@),
            !old(self)@.image.frozen ==> (r matches Err(e) ==> e is WriteFailed && final(self)@ == old(self)@),
            !old(self)@.image.frozen ==> (r matches Ok(p) ==> ({
                let w = keyed_write(old(self)@.image, sample_key(data@, digest, pod), encoded_sample(data@, pod));
                final(self)@ == (ArchiveState { image: w.0, ..old(self)@ }) && p == w.1
            })),
            !old(self)@.image.frozen ==> (r is Err <==> ({
                let e = encoded_sample(data@, pod);
                &&& e.len() > 0
                &&& !fits(old(self)@.image.bytes.len() + e.len() + 24)
                &&& !(old(self)@.image.dedup_enabled && stored_position(
                    old(self)@.image.stored,
                    sample_key(data@, digest, pod),
                ) is Some)
            })),
    {
        if self.image.is_frozen() {
            return Err(Error::Frozen);
        }
        let encoded = encode_sample_for_pod(data, pod);
        let key = ContentKey {
            digest_lo: digest.0,
            digest_hi: digest.1,
            num_bytes: encoded.len() as u64,
            pod_tag: key_tag_of(pod),
        };
        if !self.room_ok(encoded.len() as u128 + 24) {
            if encoded.len() == 0 {
                return Ok(0);
            }
            if self.image.isDedupEnabled() {
                match self.image.find_stored(key) {
                    Some(p) => {
                        return Ok(p);
                    },
                    None => {},
                }
            }
            return Err(too_large());
        }
        proof {
            lemma_keyed_write_growth(self@.image, key, encoded@);
        }
        self.image.write_keyed_data_with_key(encoded.as_slice(), key)
    }

    /// Write data as it is under a known digest (its key: the digest, the
    /// data's size and the type tag); with sharing on an identical key
    /// written before gives back its position.
    pub fn write_keyed_data_with_key(&mut self, data: &[u8], digest: (u64, u64), pod: PlainOldDataType) -> (r: Result<u64, Error>)
        requires
            archive_wf(old(self)@),
        ensures
            archive_wf(final(self)@),
            old(self)@.image.frozen ==> (r matches Err(Error::Frozen) && final(self)@ == old(self)@),
            !old(self)@.image.frozen ==> (r matches Err(e) ==> e is WriteFailed && final(self)@ == old(self)@),
            !old(self)@.image.frozen ==> (r matches Ok(p) ==> ({
                let k = ContentKey { digest_lo: digest.0, digest_hi: digest.1, num_bytes: data@.len() as u64, pod_tag: key_tag(pod) };
                let w = keyed_write(old(self)@.image, k, data@);
                final(self)@ == (ArchiveState { image: w.0, ..old(self)@ }) && p == w.1
            })),
            !old(self)@.image.frozen ==> (r is Err <==> ({
                let k = ContentKey { digest_lo: digest.0, digest_hi: digest.1, num_bytes: data@.len() as u64, pod_tag: key_tag(pod) };
                &&& data@.len() > 0
                &&& !fits(old(self)@.image.bytes.len() + data@.len() + 24)
                &&& !(old(self)@.image.dedup_enabled && stored_position(old(self)@.image.stored, k) is Some)
            })),
    {
        if self.image.is_frozen() {
            return Err(Error::Frozen);
        }
        let key = ContentKey {
            digest_lo: digest.0,
            digest_hi: digest.1,
            num_bytes: data.len() as u64,
            pod_tag: key_tag_of(pod),
        };
        if !self.room_ok(data.len() as u128 + 24) {
            if data.len() == 0 {
                return Ok(0);
            }
            if self.image.isDedupEnabled() {
                match self.image.find_stored(key) {
                    Some(p) => {
                        return Ok(p);
                    },
                    None => {},
                }
            }
            return Err(too_large());
        }
        proof {
            lemma_keyed_write_growth(self@.image, key, data@);
        }
        self.image.write_keyed_data_with_key(data, key)
    }

    /// The time sampling at `index`, if there is one.
    #[allow(non_snake_case)]
    pub fn getTimeSampling(&self, index: usize) -> (r: Option<&TimeSamplingRecord>)
        ensures
            index < self@.image.samplings.len() ==> (r matches Some(t) && record_view(*t)
                == self@.image.samplings[index as int]),
            index >= self@.image.samplings.len() ==> r is None,
    {
        self.image.getTimeSampling(index)
    }

    /// Finish the archive: freeze it around an empty root object (with the
    /// root's digests) unless it is already frozen, and hand back its image.
    pub fn close(self, empty_root_digests: &ObjectDigests) -> (r: Result<ArchiveImage, Error>)
        requires
            archive_wf(self@),
            empty_root_digests.properties@.len() == 0,
            empty_root_digests.children@.len() == 0,
        ensures
            self@.image.frozen ==> (r matches Ok(img) && img@ == self@.image),
            !self@.image.frozen ==> match r {
                Ok(img) => img@.frozen && exists|a: ArchiveState|
                    archive_written(self@, a, Seq::<OObject>::empty(), Seq::<OProperty>::empty(), Seq::<SampleDigests>::empty(), Ok(())) && a.image == img@,
                Err(e) => e is WriteFailed,
            },
            !self@.image.frozen && fits(self@.image.bytes.len() + empty_root_room(self@)) ==> r is Ok,
    {
        let mut s = self;
        if !s.image.is_frozen() {
            let root = OObject::new("");
            proof {
                assert(all_digests_fit(root.properties@, empty_root_digests.properties@, 0));
                assert(all_object_digests_fit(root.children@, empty_root_digests.children@, 0));
            }
            let ghost before = s@;
            match s.write_archive(&root, empty_root_digests) {
                Ok(()) => {},
                Err(e) => {
                    return Err(e);
                },
            }
            assert(root.children@ =~= Seq::<OObject>::empty());
            assert(root.properties@ =~= Seq::<OProperty>::empty());
            assert(empty_root_digests.properties@ =~= Seq::<SampleDigests>::empty());
            assert(archive_written(before, s@, Seq::<OObject>::empty(), Seq::<OProperty>::empty(), Seq::<SampleDigests>::empty(), Ok(())));
        }
        Ok(s.image)
    }
}

proof fn lemma_frozen_header(b: Seq<u8>, root: u64)
    requires
        b.len() >= 16,
        b.subrange(0, 16) == initial_header(),
    ensures
        frozen_bytes(b, root).len() == b.len(),
        frozen_bytes(b, root).subrange(0, 5) == magic_bytes(),
        frozen_bytes(b, root)[5] == 0xFF,
        le_value(frozen_bytes(b, root).subrange(6, 8)) == 256,
        le_value(frozen_bytes(b, root).subrange(8, 16)) == root,
{
    let nb = frozen_bytes(b, root);
    crate::ogawa::le::lemma_le_bytes_len(root as nat, 8);
    crate::ogawa::le::lemma_le_bytes_len(0, 8);
    assert(nb.subrange(0, 5) =~= b.subrange(0, 16).subrange(0, 5));
    assert(nb.subrange(0, 5) =~= magic_bytes());
    assert(nb.subrange(6, 8) =~= b.subrange(0, 16).subrange(6, 8));
    assert(nb.subrange(6, 8) =~= seq![0u8, 1u8]);
    assert(le_value(seq![0u8, 1u8]) == 256) by {
        reveal_with_fuel(le_value, 3);
        assert(seq![0u8, 1u8].drop_first() =~= seq![1u8]);
        assert(seq![1u8].drop_first() =~= Seq::<u8>::empty());
    }
    assert(nb.subrange(8, 16) =~= le_bytes(root as nat, 8));
    reveal_with_fuel(crate::ogawa::le::byte_range, 9);
    crate::ogawa::le::lemma_le_roundtrip(root as nat, 8);
}

/// An archive frozen by `write_archive`, from an image that began with the
/// header `create` writes, is read back by the header decoder as an Ogawa
/// file (magic `Ogawa`) whose frozen flag is set, whose version field holds
/// the bytes 0, 1 (256 read little-endian) and whose root position is that
/// of a six-child root group; and its time sampling table decodes back to
/// the writer's table when every sampling has at least one time.
pub proof fn lemma_frozen_archive_reads_back(
    old_a: ArchiveState,
    new_a: ArchiveState,
    children: Seq<OObject>,
    props: Seq<OProperty>,
    pds: Seq<SampleDigests>,
)
    requires
        archive_written(old_a, new_a, children, props, pds, Ok(())),
        !old_a.image.frozen,
        old_a.image.bytes.len() >= 16,
        old_a.image.bytes.subrange(0, 16) == initial_header(),
    ensures
        new_a.image.bytes.len() >= 16,
        new_a.image.bytes.subrange(0, 5) == magic_bytes(),
        new_a.image.bytes[5] == 0xFF,
        le_value(new_a.image.bytes.subrange(6, 8)) == 256,
        exists|cs: Seq<u64>|
            cs.len() == 6 && #[trigger] group_at(new_a.image.bytes, le_value(new_a.image.bytes.subrange(8, 16)) as int, cs),
        storable_samplings(new_a.image.samplings) && new_a.image.samplings.len() > 0 ==> exists|ts: int|
            #[trigger] data_at(new_a.image.bytes, ts, samplings_bytes(new_a.image.samplings)),
        storable_samplings(new_a.image.samplings) ==> parse_time_samplings_from(samplings_bytes(new_a.image.samplings), 0)
            == Some(new_a.image.samplings),
{
    let (b, root, v, fv, obj, meta, ts, idx) = choose|b: Seq<u8>, root: u64, v: u64, fv: u64, obj: u64, meta: u64, ts: u64, idx: u64|
        #[trigger] archive_layout(old_a, new_a, children, props, pds, b, root, v, fv, obj, meta, ts, idx);
    assert(b.subrange(0, 16) =~= old_a.image.bytes.subrange(0, 16)) by {
        assert(b.subrange(0, 16) =~= b.subrange(0, old_a.image.bytes.len() as int).subrange(0, 16));
    }
    lemma_frozen_header(b, root);
    let cs = root_children(v, fv, obj, meta, ts, idx);
    assert(group_at(new_a.image.bytes, root as int, cs));
    if storable_samplings(new_a.image.samplings) {
        lemma_time_samplings_roundtrip(new_a.image.samplings);
        if new_a.image.samplings.len() > 0 {
            let t = samplings_bytes(new_a.image.samplings);
            assert(t.len() > 0) by {
                assert(t == crate::ogawa::writer::time_table::sampling_bytes(new_a.image.samplings[0]) + samplings_bytes(new_a.image.samplings.drop_first()));
                crate::ogawa::le::lemma_le_bytes_len(new_a.image.samplings[0].0 as nat, 4);
            }
            assert(data_at(new_a.image.bytes, ts as int, t));
        }
    }
}

/// A block placed as `write_archive` places it is what the reader takes
/// child `i` of the root group to hold.
proof fn lemma_block_child(d: Seq<u8>, g: GroupView, i: int, pos: u64, data: Seq<u8>)
    requires
        child_offset_of(d, g, i) == data_offset_of(pos),
        block_at(d, pos as int, data),
        placed(pos as int, data),
        fits(d.len()),
    ensures
        child_block(d, g, i) == data,
{
    if data.len() == 0 {
        assert(pos == 0);
        assert(offset_position(data_offset_of(0)) == 0);
        assert(child_block(d, g, i) =~= data);
    } else {
        assert(pos < position_range());
        lemma_child_offset_roundtrip(pos);
        lemma_data_reads_back(d, pos, data);
        assert(u64_at(d, pos as int) == data.len());
    }
}

/// A block placed as `write_archive` places it lies in the file with its
/// recorded size.
proof fn lemma_block_child_readable(d: Seq<u8>, g: GroupView, i: int, pos: u64, data: Seq<u8>)
    requires
        child_offset_of(d, g, i) == data_offset_of(pos),
        block_at(d, pos as int, data),
        placed(pos as int, data),
        fits(d.len()),
    ensures
        child_block(d, g, i) == data,
        block_readable(d, g, i),
        block_size(d, g, i) == data.len(),
        child_is_data(d, g, i),
{
    lemma_block_child(d, g, i, pos, data);
    if data.len() == 0 {
        assert(offset_position(data_offset_of(0)) == 0);
    } else {
        assert(pos < position_range());
        lemma_child_offset_roundtrip(pos);
        lemma_data_reads_back(d, pos, data);
    }
    assert(pos < position_range());
    lemma_child_offset_roundtrip(pos);
}

/// The four stored bytes of a 32-bit integer read back as that integer.
proof fn lemma_i32_le_reads_back(x: i32)
    ensures
        i32_le(x).len() == 4,
        i32_of(i32_le(x)) == x,
{
    reveal_with_fuel(crate::ogawa::le::byte_range, 5);
    crate::ogawa::le::lemma_le_roundtrip(x as u32 as nat, 4);
    assert((x as u32) as i32 == x) by (bit_vector);
}

/// An archive frozen by `write_archive` (from an image that began with the
/// header `create` writes) opens as the reader expects: the root group at
/// the position the header gives can be read and has six children, laid
/// out as data, data, group, data, data, data; the first block holds the
/// file version 0 and the second the library version the writer was set
/// to, each in four bytes; the archive metadata block decodes to the text
/// of the archive metadata written; the time sampling block decodes to the writer's
/// time samplings when each has at least one time; and the indexed
/// metadata block decodes to the writer's metadata table.
#[verifier::spinoff_prover]
#[verifier::rlimit(30)]
pub proof fn lemma_frozen_archive_opens(
    old_a: ArchiveState,
    new_a: ArchiveState,
    children: Seq<OObject>,
    props: Seq<OProperty>,
    pds: Seq<SampleDigests>,
)
    requires
        archive_written(old_a, new_a, children, props, pds, Ok(())),
        !old_a.image.frozen,
        old_a.image.bytes.len() >= 16,
        old_a.image.bytes.subrange(0, 16) == initial_header(),
    ensures
        ({
            let d = new_a.image.bytes;
            let g = group_read(d, u64_at(d, 8), false);
            &&& group_readable(d, u64_at(d, 8), false)
            &&& g.num_children == 6
            &&& g.child_offsets.len() == 6
            &&& root_kinds_ok(d, g)
            &&& child_block(d, g, 0).len() == 4
            &&& i32_of(child_block(d, g, 0)) == OGAWA_FILE_VERSION
            &&& child_block(d, g, 1).len() == 4
            &&& i32_of(child_block(d, g, 1)) == old_a.library_version
            &&& decode_utf8(child_block(d, g, 3)) == metadata_text(final_archive_metadata(old_a))
            &&& (storable_samplings(new_a.image.samplings) ==> parse_time_samplings_from(child_block(d, g, 4), 0)
                == Some(new_a.image.samplings))
            &&& parse_indexed_metadata(child_block(d, g, 5)) == Ok::<
                Seq<Seq<char>>,
                crate::ogawa::read_util::HeaderError,
            >(new_a.table)
        }),
{
    let (b, root, v, fv, obj, meta, ts, idx) = choose|b: Seq<u8>, root: u64, v: u64, fv: u64, obj: u64, meta: u64, ts: u64, idx: u64|
        #[trigger] archive_layout(old_a, new_a, children, props, pds, b, root, v, fv, obj, meta, ts, idx);
    assert(b.subrange(0, 16) =~= old_a.image.bytes.subrange(0, 16)) by {
        assert(b.subrange(0, 16) =~= b.subrange(0, old_a.image.bytes.len() as int).subrange(0, 16));
    }
    lemma_frozen_header(b, root);
    let d = new_a.image.bytes;
    assert(u64_at(d, 8) == root);
    let cs = root_children(v, fv, obj, meta, ts, idx);
    lemma_group_reads_back(d, root, cs);
    let g = group_read(d, root, false);
    assert(g.child_offsets == cs);
    lemma_child_offset_roundtrip(obj % 0x8000_0000_0000_0000);
    assert(child_offset_of(d, g, 0) == data_offset_of(v));
    assert(child_offset_of(d, g, 1) == data_offset_of(fv));
    assert(child_offset_of(d, g, 2) == group_offset_of(obj));
    assert(child_offset_of(d, g, 3) == data_offset_of(meta));
    assert(child_offset_of(d, g, 4) == data_offset_of(ts));
    assert(child_offset_of(d, g, 5) == data_offset_of(idx));
    lemma_i32_le_reads_back(OGAWA_FILE_VERSION);
    lemma_i32_le_reads_back(old_a.library_version);
    lemma_block_child(d, g, 0, v, i32_le(OGAWA_FILE_VERSION));
    lemma_block_child(d, g, 1, fv, i32_le(old_a.library_version));
    lemma_block_child(d, g, 3, meta, encode_utf8(metadata_text(final_archive_metadata(old_a))));
    lemma_block_child(d, g, 4, ts, samplings_bytes(new_a.image.samplings));
    assert(decode_utf8(encode_utf8(metadata_text(final_archive_metadata(old_a)))) == metadata_text(
        final_archive_metadata(old_a),
    )) by {
        broadcast use vstd::utf8::group_utf8_lib;
    }
    lemma_block_child(d, g, 5, idx, table_bytes(new_a.table.drop_first()));
    if storable_samplings(new_a.image.samplings) {
        lemma_time_samplings_roundtrip(new_a.image.samplings);
    }
    lemma_indexed_metadata_roundtrip(new_a.table);
}

/// The root object of an archive frozen by `write_archive` reads back with
/// the children it was written with: the root group's third child is the
/// root object's group, whose last child is a data block whose object
/// headers decode, against the archive's final metadata table, to each
/// child's name, full path (`/` and the name) and metadata text, in order.
/// Every child is taken to have a non-empty name and name and metadata
/// texts under 4 GiB, the sizes a header can record.
pub proof fn lemma_frozen_root_children_read_back(
    old_a: ArchiveState,
    new_a: ArchiveState,
    children: Seq<OObject>,
    props: Seq<OProperty>,
    pds: Seq<SampleDigests>,
)
    requires
        archive_written(old_a, new_a, children, props, pds, Ok(())),
        !old_a.image.frozen,
        old_a.image.bytes.len() >= 16,
        old_a.image.bytes.subrange(0, 16) == initial_header(),
        forall|i: int| 0 <= i < children.len() ==> object_fits(#[trigger] object_inputs(children)[i]),
    ensures
        ({
            let d = new_a.image.bytes;
            let g = group_read(d, u64_at(d, 8), false);
            let og = group_read(d, offset_position(child_offset_of(d, g, 2)), false);
            &&& og.num_children == children.len() + 2
            &&& child_is_data(d, og, og.num_children - 1)
            &&& parse_object_headers(child_block(d, og, og.num_children - 1), Seq::<char>::empty(), new_a.table)
                == Ok::<Seq<ObjectHeaderView>, crate::ogawa::read_util::HeaderError>(
                Seq::new(children.len(), |i: int| object_view(Seq::<char>::empty(), object_inputs(children)[i])),
            )
        }),
{
    let (b, root, v, fv, obj, meta, ts, idx) = choose|b: Seq<u8>, root: u64, v: u64, fv: u64, obj: u64, meta: u64, ts: u64, idx: u64|
        #[trigger] archive_layout(old_a, new_a, children, props, pds, b, root, v, fv, obj, meta, ts, idx);
    assert(b.subrange(0, 16) =~= old_a.image.bytes.subrange(0, 16)) by {
        assert(b.subrange(0, 16) =~= b.subrange(0, old_a.image.bytes.len() as int).subrange(0, 16));
    }
    lemma_frozen_header(b, root);
    let d = new_a.image.bytes;
    assert(u64_at(d, 8) == root);
    let cs = root_children(v, fv, obj, meta, ts, idx);
    lemma_group_reads_back(d, root, cs);
    let g = group_read(d, root, false);
    assert(g.child_offsets == cs);
    assert(child_offset_of(d, g, 2) == group_offset_of(obj));
    let (pp, cps, hp) = choose|pp: u64, cps: Seq<u64>, hp: u64|
        cps.len() == children.len() && #[trigger] group_at(d, obj as int, object_group_children(pp, cps, hp))
            && hp >= 16 && header_block_at(d, hp, children, new_a.table) && property_list_at(d, pp, props, pds, new_a.table);
    assert(obj < 0x8000_0000_0000_0000) by {
        lemma_group_reads_back(d, obj, object_group_children(pp, cps, hp));
    }
    lemma_child_offset_roundtrip(obj);
    assert(d.len() == b.len());
    lemma_object_children_read_back(d, obj, pp, cps, hp, children, new_a.table, Seq::<char>::empty());
}

/// The group of an object written at `obj` reads as an object group: its
/// header block and its property list read against the table `t`.
proof fn lemma_object_group_readable(
    d: Seq<u8>,
    obj: u64,
    children: Seq<OObject>,
    props: Seq<OProperty>,
    pds: Seq<SampleDigests>,
    t: Seq<Seq<char>>,
)
    requires
        object_group_at(d, obj, children, props, pds, t),
        obj >= 16,
        fits(d.len()),
        forall|i: int| 0 <= i < children.len() ==> object_fits(#[trigger] object_inputs(children)[i]),
        pds.len() == props.len(),
        all_digests_fit(props, pds, props.len()),
        forall|k: int| 0 <= k < props.len() ==> property_fits(#[trigger] props[k]),
    ensures
        obj < 0x8000_0000_0000_0000,
        group_readable(d, obj, false),
        object_readable(d, group_read(d, obj, false), Seq::empty(), t),
{
    let (pp, cps, hp) = choose|pp: u64, cps: Seq<u64>, hp: u64|
        cps.len() == children.len() && #[trigger] group_at(d, obj as int, object_group_children(pp, cps, hp))
            && hp >= 16 && header_block_at(d, hp, children, t) && property_list_at(d, pp, props, pds, t);
    assert(obj < 0x8000_0000_0000_0000) by {
        lemma_group_reads_back(d, obj, object_group_children(pp, cps, hp));
    }
    lemma_child_offset_roundtrip(obj);
    let kids = object_group_children(pp, cps, hp);
    lemma_group_reads_back(d, obj, kids);
    let og = group_read(d, obj, false);
    assert(og.child_offsets == kids);
    assert(child_offset_of(d, og, 0) == group_offset_of(pp));
    if props.len() == 0 {
        assert(pp == 0);
        assert(offset_position(group_offset_of(0)) == 0);
    } else {
        lemma_property_headers_read_back(d, pp, props, pds, t);
        assert(pp < 0x8000_0000_0000_0000) by {
            let (qs, php) = choose|qs: Seq<u64>, php: u64|
                qs.len() == props.len() && #[trigger] group_at(d, pp as int, property_group_children(qs, php))
                    && property_headers_at(d, php, qs, props, pds, t);
            lemma_group_reads_back(d, pp, property_group_children(qs, php));
        }
        lemma_child_offset_roundtrip(pp);
        assert(offset_position(child_offset_of(d, og, 0)) == pp);
        let pg = group_read(d, pp, false);
        assert(compound_readable(d, pg, t));
    }
    lemma_object_children_read_back(d, obj, pp, cps, hp, children, t, Seq::<char>::empty());
    assert(object_readable(d, og, Seq::empty(), t));
}

/// A reader opens an archive frozen by `write_archive` (from an image that
/// began with the header `create` writes): the file's header, root group
/// and root layout are all accepted, and its root object group reads. This
/// holds when the writer's library version is one a reader accepts, every
/// time sampling has at least one time, and every child and property of
/// the root has a header the encoding can represent.
#[verifier::spinoff_prover]
#[verifier::rlimit(100)]
pub proof fn lemma_written_archive_readable(
    old_a: ArchiveState,
    new_a: ArchiveState,
    children: Seq<OObject>,
    props: Seq<OProperty>,
    pds: Seq<SampleDigests>,
)
    requires
        archive_written(old_a, new_a, children, props, pds, Ok(())),
        !old_a.image.frozen,
        old_a.image.bytes.len() >= 16,
        old_a.image.bytes.subrange(0, 16) == initial_header(),
        old_a.library_version >= MIN_ALEMBIC_VERSION,
        storable_samplings(new_a.image.samplings),
        forall|i: int| 0 <= i < children.len() ==> object_fits(#[trigger] object_inputs(children)[i]),
        pds.len() == props.len(),
        all_digests_fit(props, pds, props.len()),
        forall|k: int| 0 <= k < props.len() ==> property_fits(#[trigger] props[k]),
    ensures
        archive_file_readable(new_a.image.bytes),
{
    let (b, root, v, fv, obj, meta, ts, idx) = choose|b: Seq<u8>, root: u64, v: u64, fv: u64, obj: u64, meta: u64, ts: u64, idx: u64|
        #[trigger] archive_layout(old_a, new_a, children, props, pds, b, root, v, fv, obj, meta, ts, idx);
    assert(b.subrange(0, 16) =~= old_a.image.bytes.subrange(0, 16)) by {
        assert(b.subrange(0, 16) =~= b.subrange(0, old_a.image.bytes.len() as int).subrange(0, 16));
    }
    lemma_frozen_header(b, root);
    let d = new_a.image.bytes;
    assert(u64_at(d, 8) == root);
    let cs = root_children(v, fv, obj, meta, ts, idx);
    lemma_group_reads_back(d, root, cs);
    let g = group_read(d, root, false);
    assert(g.child_offsets == cs);
    assert(child_offset_of(d, g, 0) == data_offset_of(v));
    assert(child_offset_of(d, g, 1) == data_offset_of(fv));
    assert(child_offset_of(d, g, 2) == group_offset_of(obj));
    assert(child_offset_of(d, g, 3) == data_offset_of(meta));
    assert(child_offset_of(d, g, 4) == data_offset_of(ts));
    assert(child_offset_of(d, g, 5) == data_offset_of(idx));
    lemma_i32_le_reads_back(OGAWA_FILE_VERSION);
    lemma_i32_le_reads_back(old_a.library_version);
    lemma_block_child_readable(d, g, 0, v, i32_le(OGAWA_FILE_VERSION));
    lemma_block_child_readable(d, g, 1, fv, i32_le(old_a.library_version));
    lemma_block_child_readable(d, g, 3, meta, encode_utf8(metadata_text(final_archive_metadata(old_a))));
    lemma_block_child_readable(d, g, 4, ts, samplings_bytes(new_a.image.samplings));
    lemma_block_child_readable(d, g, 5, idx, table_bytes(new_a.table.drop_first()));
    lemma_table_room(new_a.table);
    assert(vstd::utf8::valid_utf8(encode_utf8(metadata_text(final_archive_metadata(old_a))))) by {
        broadcast use vstd::utf8::group_utf8_lib;
    }
    lemma_time_samplings_roundtrip(new_a.image.samplings);
    lemma_indexed_metadata_roundtrip(new_a.table);
    lemma_object_group_readable(d, obj, children, props, pds, new_a.table);
    lemma_child_offset_roundtrip(obj);
    assert(offset_position(child_offset_of(d, g, 2)) == obj);
    assert(archive_root_readable(d, g));
}

impl OArchive {
    /// The time per cycle and stored times of time sampling `index` (those
    /// of the identity sampling for an index outside the table), as a
    /// property's header hash uses them.
    pub fn time_sampling_for_hash(&self, index: u32) -> (r: (u64, Vec<u64>))
        ensures
            (index as int) < self@.image.samplings.len() ==> r.0 == self@.image.samplings[index as int].1 && r.1@
                == self@.image.samplings[index as int].2,
            (index as int) >= self@.image.samplings.len() ==> r.0 == crate::ogawa::writer::image::IDENTITY_TIME_PER_CYCLE
                && r.1@ == seq![0u64],
    {
        match self.image.getTimeSampling(index as usize) {
            Some(t) => {
                let mut times: Vec<u64> = Vec::new();
                let mut k: usize = 0;
                while k < t.times.len()
                    invariant
                        k <= t.times@.len(),
                        times@ == t.times@.subrange(0, k as int),
                    decreases t.times@.len() - k,
                {
                    times.push(t.times[k]);
                    k = k + 1;
                }
                assert(t.times@.subrange(0, t.times@.len() as int) =~= t.times@);
                (t.time_per_cycle, times)
            },
            None => {
                let mut times: Vec<u64> = Vec::new();
                times.push(0);
                assert(times@ =~= seq![0u64]);
                (crate::ogawa::writer::image::IDENTITY_TIME_PER_CYCLE, times)
            },
        }
    }
}

} // verus!
