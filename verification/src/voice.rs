//! Voice packs: decoding the style tensors of a voice file.

use std::collections::HashMap;
use vstd::prelude::*;

use crate::error::KokoroError;
use crate::numtext::{parse_usize, spec_parse_usize};
use crate::text::chars_of;
use crate::types::{spec_filename, Voice, HF_BASE_URL};

verus! {

broadcast use {vstd::string::group_string_axioms, vstd::std_specs::hash::group_hash_axioms};

/// The little-endian `u32` stored at `b[i..i + 4]`.
pub open spec fn le_u32(b: Seq<u8>, i: int) -> int {
    b[i] + 256 * b[i + 1] + 65536 * b[i + 2] + 16777216 * b[i + 3]
}

/// The little-endian 32-bit words of `raw`; a trailing part shorter than four
/// bytes is ignored. Each word is the bit pattern of one `f32` of a style tensor.
pub open spec fn le_words(raw: Seq<u8>) -> Seq<u32> {
    Seq::new(raw.len() / 4, |i: int| le_u32(raw, 4 * i) as u32)
}

/// Length of the JSON metadata that follows the four-byte length prefix of a
/// voice file, or the error message for a file whose prefix is missing or
/// announces more bytes than the file holds.
pub open spec fn spec_meta_len(data: Seq<u8>) -> Result<int, Seq<char>> {
    if data.len() < 4 {
        Err("file too small"@)
    } else if 4 + le_u32(data, 0) > data.len() {
        Err("invalid metadata length"@)
    } else {
        Ok(le_u32(data, 0))
    }
}

/// Metadata of one tensor of a voice file: its name, where its bytes lie in
/// the data after the metadata, and its shape.
pub struct TensorEntry {
    pub key: String,
    pub offset: usize,
    pub size: usize,
    pub shape: Vec<usize>,
}

/// The mathematical value of a [`TensorEntry`].
pub ghost struct TensorEntrySpec {
    pub key: Seq<char>,
    pub offset: int,
    pub size: int,
    pub shape: Seq<usize>,
}

impl View for TensorEntry {
    type V = TensorEntrySpec;

    open spec fn view(&self) -> TensorEntrySpec {
        TensorEntrySpec {
            key: self.key@,
            offset: self.offset as int,
            size: self.size as int,
            shape: self.shape@,
        }
    }
}

/// The views of a sequence of tensor entries.
pub open spec fn entry_views(v: Seq<TensorEntry>) -> Seq<TensorEntrySpec> {
    v.map_values(|e: TensorEntry| e@)
}

/// The styles (by numeric key) and the style shape read from the tensors, in
/// order, or the message of the first tensor that is out of bounds, whose size
/// is not a multiple of four, or whose name is not a number. A later tensor
/// with the same number replaces an earlier one; the shape is that of the
/// first tensor with a non-empty shape.
pub open spec fn load_tensors(blob: Seq<u8>, entries: Seq<TensorEntrySpec>) -> Result<
    (Map<usize, Seq<u32>>, Seq<usize>),
    Seq<char>,
>
    decreases entries.len(),
{
    if entries.len() == 0 {
        Ok((Map::empty(), Seq::empty()))
    } else {
        match load_tensors(blob, entries.drop_last()) {
            Err(e) => Err(e),
            Ok((styles, shape)) => {
                let e = entries.last();
                if e.offset + e.size > blob.len() {
                    Err("tensor "@ + e.key + " offset+size exceeds blob"@)
                } else if e.size % 4 != 0 {
                    Err("tensor "@ + e.key + " size mismatch"@)
                } else {
                    match spec_parse_usize(e.key) {
                        None => Err("invalid key: "@ + e.key),
                        Some(k) => Ok(
                            (
                                styles.insert(
                                    k as usize,
                                    le_words(blob.subrange(e.offset, e.offset + e.size)),
                                ),
                                if shape.len() == 0 {
                                    e.shape
                                } else {
                                    shape
                                },
                            ),
                        ),
                    }
                }
            },
        }
    }
}

/// What loading a voice file gives: the styles and style shape, or the message
/// of an invalid voice pack.
pub open spec fn spec_load(data: Seq<u8>, entries: Seq<TensorEntrySpec>) -> Result<
    (Map<usize, Seq<u32>>, Seq<usize>),
    Seq<char>,
> {
    match spec_meta_len(data) {
        Err(e) => Err(e),
        Ok(m) => match load_tensors(data.skip(4 + m), entries) {
            Err(e) => Err(e),
            Ok((styles, shape)) => if styles.is_empty() {
                Err("no tensors found"@)
            } else {
                Ok((styles, shape))
            },
        },
    }
}

/// A voice pack: style tensors by number, as the bit patterns of their `f32`
/// values, and the shape of the style tensors.
pub struct VoicePack {
    styles: HashMap<usize, Vec<u32>>,
    style_shape: Vec<usize>,
}

impl VoicePack {
    /// The style tensors by number.
    pub closed spec fn styles(&self) -> Map<usize, Seq<u32>> {
        self.styles@.map_values(|v: Vec<u32>| v@)
    }

    /// The shape of the style tensors.
    pub closed spec fn shape(&self) -> Seq<usize> {
        self.style_shape@
    }

    /// Reads the four-byte little-endian length prefix of a voice file and
    /// returns the length of the JSON metadata that follows it.
    pub fn meta_len(data: &[u8]) -> (res: Result<usize, KokoroError>)
        ensures
            match res {
                Ok(m) => spec_meta_len(data@) == Ok::<int, Seq<char>>(m as int),
                Err(KokoroError::InvalidVoicePack(msg)) => spec_meta_len(data@) == Err::<
                    int,
                    Seq<char>,
                >(msg@),
                Err(_) => false,
            },
    {
        if data.len() < 4 {
            return Err(KokoroError::InvalidVoicePack(String::from_str("file too small")));
        }
        let m: u64 = data[0] as u64 + 256 * (data[1] as u64) + 65536 * (data[2] as u64) + 16777216
            * (data[3] as u64);
        if m > (data.len() - 4) as u64 {
            return Err(KokoroError::InvalidVoicePack(String::from_str("invalid metadata length")));
        }
        Ok(m as usize)
    }

    /// Loads a voice pack from the bytes of a voice file and the tensor
    /// metadata parsed from its JSON part, in the order the tensors are read
    /// (see `spec_load`). Every tensor's offset plus size must fit in `usize`.
    pub fn load(data: &[u8], tensors: Vec<TensorEntry>) -> (res: Result<VoicePack, KokoroError>)
        requires
            forall|i: int|
                0 <= i < tensors@.len() ==> #[trigger] tensors@[i].offset + tensors@[i].size
                    <= usize::MAX,
        ensures
            match res {
                Ok(pack) => spec_load(data@, entry_views(tensors@)) == Ok::<
                    (Map<usize, Seq<u32>>, Seq<usize>),
                    Seq<char>,
                >((pack.styles(), pack.shape())),
                Err(KokoroError::InvalidVoicePack(msg)) => spec_load(data@, entry_views(tensors@))
                    == Err::<(Map<usize, Seq<u32>>, Seq<usize>), Seq<char>>(msg@),
                Err(_) => false,
            },
    {
        let meta = match Self::meta_len(data) {
            Ok(m) => m,
            Err(e) => return Err(e),
        };
        assert(4 + meta <= data.len());
        let blob = &data[4 + meta..data.len()];
        assert(blob@ =~= data@.skip(4 + meta));
        let ghost ev = entry_views(tensors@);
        let mut styles: HashMap<usize, Vec<u32>> = HashMap::new();
        let mut shape: Vec<usize> = Vec::new();
        let mut i: usize = 0;
        assert(ev.take(0) =~= Seq::<TensorEntrySpec>::empty());
        assert(styles@.map_values(|v: Vec<u32>| v@) =~= Map::<usize, Seq<u32>>::empty());
        while i < tensors.len()
            invariant
                i <= tensors.len(),
                ev == entry_views(tensors@),
                spec_meta_len(data@) == Ok::<int, Seq<char>>(meta as int),
                blob@ == data@.skip(4 + meta),
                forall|j: int|
                    0 <= j < tensors@.len() ==> #[trigger] tensors@[j].offset + tensors@[j].size
                        <= usize::MAX,
                load_tensors(blob@, ev.take(i as int)) == Ok::<
                    (Map<usize, Seq<u32>>, Seq<usize>),
                    Seq<char>,
                >((styles@.map_values(|v: Vec<u32>| v@), shape@)),
            decreases tensors.len() - i,
        {
            let t = &tensors[i];
            assert(ev.take(i + 1).drop_last() =~= ev.take(i as int));
            assert(ev.take(i + 1).last() == t@);
            let end = t.offset + t.size;
            if end > blob.len() {
                let mut msg = String::from_str("tensor ");
                msg.append(t.key.as_str());
                msg.append(" offset+size exceeds blob");
                proof {
                    lemma_load_fails_later(blob@, ev, i + 1);
                }
                return Err(KokoroError::InvalidVoicePack(msg));
            }
            let words = decode_words(blob, t.offset, end);
            if words.len() * 4 != t.size {
                let mut msg = String::from_str("tensor ");
                msg.append(t.key.as_str());
                msg.append(" size mismatch");
                proof {
                    lemma_load_fails_later(blob@, ev, i + 1);
                }
                return Err(KokoroError::InvalidVoicePack(msg));
            }
            if shape.len() == 0 {
                shape = t.shape.clone();
            }
            let key = chars_of(t.key.as_str());
            let key_num = match parse_usize(&key) {
                Some(k) => k,
                None => {
                    let mut msg = String::from_str("invalid key: ");
                    msg.append(t.key.as_str());
                    proof {
                        lemma_load_fails_later(blob@, ev, i + 1);
                    }
                    return Err(KokoroError::InvalidVoicePack(msg));
                },
            };
            let ghost old_styles = styles@;
            let ghost w = words@;
            styles.insert(key_num, words);
            assert(styles@.map_values(|v: Vec<u32>| v@) =~= old_styles.map_values(
                |v: Vec<u32>| v@,
            ).insert(key_num, w));
            i = i + 1;
        }
        assert(ev.take(tensors.len() as int) =~= ev);
        if styles.is_empty() {
            assert(styles@.map_values(|v: Vec<u32>| v@).is_empty());
            return Err(KokoroError::InvalidVoicePack(String::from_str("no tensors found")));
        }
        assert(!styles@.map_values(|v: Vec<u32>| v@).is_empty()) by {
            let k = choose|k: usize| styles@.dom().contains(k);
            assert(styles@.map_values(|v: Vec<u32>| v@).dom().contains(k));
        }
        Ok(VoicePack { styles, style_shape: shape })
    }

    /// The style vector for one utterance: for a three-dimensional shape
    /// `[rows, batch, dims]`, the second row of `dims` values of tensor 0;
    /// otherwise all of tensor 0.
    pub fn get_style(&self) -> (style: &[u32])
        requires
            self.styles().contains_key(0),
            self.shape().len() == 3 ==> 2 * self.shape()[2] <= self.styles()[0].len(),
        ensures
            style@ == (if self.shape().len() == 3 {
                self.styles()[0].subrange(self.shape()[2] as int, 2 * self.shape()[2])
            } else {
                self.styles()[0]
            }),
    {
        let tensor = match self.styles.get(&0) {
            Some(t) => t,
            None => {
                assert(self.styles@.contains_key(0usize));
                return &[];
            },
        };
        assert(tensor@ == self.styles()[0]);
        if self.style_shape.len() == 3 {
            let dims = self.style_shape[2];
            assert(2 * dims <= tensor.len());
            &tensor.as_slice()[dims..2 * dims]
        } else {
            tensor.as_slice()
        }
    }

    /// The number of values in style tensor 0, `None` where there is none.
    pub fn style_len(&self) -> (n: Option<usize>)
        ensures
            match n {
                Some(k) => self.styles().contains_key(0) && k == self.styles()[0].len(),
                None => !self.styles().contains_key(0),
            },
    {
        match self.styles.get(&0) {
            Some(t) => {
                assert(t@ == self.styles()[0]);
                Some(t.len())
            },
            None => {
                assert(!self.styles@.contains_key(0usize));
                None
            },
        }
    }

    /// The shape of the style tensors.
    pub fn style_shape(&self) -> (shape: &[usize])
        ensures
            shape@ == self.shape(),
    {
        self.style_shape.as_slice()
    }
}

/// Once a prefix of the tensors fails, every longer prefix fails with the same message.
proof fn lemma_load_fails_later(blob: Seq<u8>, entries: Seq<TensorEntrySpec>, k: int)
    requires
        0 <= k <= entries.len(),
        load_tensors(blob, entries.take(k)) is Err,
    ensures
        load_tensors(blob, entries) == load_tensors(blob, entries.take(k)),
    decreases entries.len() - k,
{
    if k < entries.len() {
        assert(entries.take(k + 1).drop_last() =~= entries.take(k));
        lemma_load_fails_later(blob, entries, k + 1);
    } else {
        assert(entries.take(k) =~= entries);
    }
}

/// The little-endian words of `blob[from..to]`.
fn decode_words(blob: &[u8], from: usize, to: usize) -> (res: Vec<u32>)
    requires
        from <= to <= blob.len(),
    ensures
        res@ == le_words(blob@.subrange(from as int, to as int)),
{
    let ghost raw = blob@.subrange(from as int, to as int);
    let n = (to - from) / 4;
    let mut res: Vec<u32> = Vec::new();
    let mut i: usize = 0;
    while i < n
        invariant
            i <= n == (to - from) / 4,
            from <= to <= blob.len(),
            raw == blob@.subrange(from as int, to as int),
            res@ == le_words(raw).take(i as int),
        decreases n - i,
    {
        let p = from + 4 * i;
        let w: u64 = blob[p] as u64 + 256 * (blob[p + 1] as u64) + 65536 * (blob[p + 2] as u64)
            + 16777216 * (blob[p + 3] as u64);
        assert(w == le_u32(raw, 4 * i));
        res.push(w as u32);
        i = i + 1;
        assert(res@ =~= le_words(raw).take(i as int));
    }
    assert(le_words(raw).take(n as int) =~= le_words(raw));
    res
}

} // verus!

verus! {

/// `std::path::Path`, carried opaquely.
#[verifier::external_type_specification]
#[verifier::external_body]
pub struct ExPath(std::path::Path);

/// `std::path::PathBuf`, carried opaquely.
#[verifier::external_type_specification]
#[verifier::external_body]
pub struct ExPathBuf(std::path::PathBuf);

/// What a path holds: its bytes, as `OsStr::as_encoded_bytes` hands them out.
pub uninterp spec fn path_contents(p: &std::path::Path) -> Seq<u8>;

/// What a path buffer holds: its bytes, as `OsStr::as_encoded_bytes` hands them out.
pub uninterp spec fn path_buf_contents(p: &std::path::PathBuf) -> Seq<u8>;

/// A single relative path component with no separator and no drive prefix
/// in it: a non-empty text without `/`, `\` or `:`.
pub open spec fn is_plain_component(s: Seq<char>) -> bool {
    &&& s.len() > 0
    &&& forall|i: int| 0 <= i < s.len() ==> #[trigger] s[i] != '/' && s[i] != '\\' && s[i] != ':'
}

/// A path that starts with the Windows verbatim prefix `\\?\`.
pub open spec fn is_verbatim(b: Seq<u8>) -> bool {
    b.len() >= 4 && b[0] == 92u8 && b[1] == 92u8 && b[2] == 63u8 && b[3] == 92u8
}

/// `whole` is `base` with `part` adjoined. No separator is put after an empty
/// `base` or one that ends in `/`. After one that ends in `\` there is none
/// where that is a separator, else a `/`. After one that ends in `:` there is
/// none (a bare drive such as `C:`) or one separator. After any other `base`
/// there is exactly one separator: `/`, or `\` where that is the separator.
pub open spec fn is_join_of(whole: Seq<u8>, base: Seq<u8>, part: Seq<u8>) -> bool {
    if base.len() == 0 || base.last() == 47u8 {
        whole == base + part
    } else if base.last() == 92u8 {
        ||| whole == base + part
        ||| whole == base + seq![47u8] + part
    } else if base.last() == 58u8 {
        ||| whole == base + part
        ||| whole == base + seq![47u8] + part
        ||| whole == base + seq![92u8] + part
    } else {
        ||| whole == base + seq![47u8] + part
        ||| whole == base + seq![92u8] + part
    }
}

/// `PathBuf::as_path`: the path a path buffer holds, with the same bytes.
pub assume_specification[ std::path::PathBuf::as_path ](p: &std::path::PathBuf) -> (r: &std::path::Path)
    ensures
        path_contents(r) == path_buf_contents(p),
;

/// `Path::join`: `base` with `part` adjoined, as `PathBuf::push` does it.
/// Where `part` is a single plain component (relative, no separator, no drive
/// prefix) and `base` has no verbatim prefix, the result extends `base`: its
/// bytes are those of `base`, the separator that `is_join_of` describes, then
/// the UTF-8 bytes of `part`. A `base` with a verbatim prefix is rebuilt from
/// its components, and nothing is stated of the result then, nor for any other
/// `part` (absolute, or with a prefix).
#[verifier::external_body]
fn path_join(base: &std::path::Path, part: &str) -> (r: std::path::PathBuf)
    ensures
        is_plain_component(part@) && !is_verbatim(path_contents(base)) ==> is_join_of(
            path_buf_contents(&r),
            path_contents(base),
            vstd::utf8::encode_utf8(part@),
        ),
{
    base.join(part)
}

/// The file name of a converted voice is one plain path component.
proof fn lemma_voice_file_name_plain(v: Voice)
    ensures
        is_plain_component(spec_filename(v) + ".kokoro"@),
{
    crate::types::reveal_filenames();
    reveal_strlit(".kokoro");
    let s = spec_filename(v) + ".kokoro"@;
    assert(s.len() > 0);
    assert forall|i: int| 0 <= i < s.len() implies #[trigger] s[i] != '/' && s[i] != '\\' && s[i] != ':' by {
        if i < spec_filename(v).len() {
            assert(s[i] == spec_filename(v)[i]);
        } else {
            assert(s[i] == ".kokoro"@[i - spec_filename(v).len()]);
        }
    }
}

impl Voice {
    /// Where the voice's original PyTorch file is published.
    pub fn voice_url(&self) -> (url: String)
        ensures
            url@ == HF_BASE_URL@ + "/main/voices/"@ + spec_filename(*self) + ".pt"@,
    {
        let mut url = String::from_str(HF_BASE_URL);
        url.append("/main/voices/");
        url.append(self.filename());
        url.append(".pt");
        url
    }

    /// The name of the converted voice file in the `voices` directory of the cache.
    pub fn voice_file_name(&self) -> (name: String)
        ensures
            name@ == spec_filename(*self) + ".kokoro"@,
    {
        let mut name = String::from_str(self.filename());
        name.append(".kokoro");
        name
    }

    /// The path of the converted voice file: `voices/<voice>.kokoro` under
    /// `cache_dir`. Each step adjoins one component as `is_join_of` says; a
    /// directory with a Windows verbatim prefix (`\\?\`) is rebuilt by std
    /// from its components, and nothing is said of that step then.
    pub fn voice_path(&self, cache_dir: &std::path::Path) -> (path: std::path::PathBuf)
        ensures
            !is_verbatim(path_contents(cache_dir)) ==> exists|dir: Seq<u8>|
                #![trigger is_join_of(dir, path_contents(cache_dir), vstd::utf8::encode_utf8("voices"@))]
                is_join_of(dir, path_contents(cache_dir), vstd::utf8::encode_utf8("voices"@))
                && (!is_verbatim(dir) ==> is_join_of(
                    path_buf_contents(&path),
                    dir,
                    vstd::utf8::encode_utf8(spec_filename(*self) + ".kokoro"@),
                )),
    {
        proof {
            reveal_strlit("voices");
            lemma_voice_file_name_plain(*self);
        }
        let voice_dir = path_join(cache_dir, "voices");
        let name = self.voice_file_name();
        let path = path_join(voice_dir.as_path(), name.as_str());
        assert(!is_verbatim(path_contents(cache_dir)) ==> is_join_of(
            path_buf_contents(&voice_dir),
            path_contents(cache_dir),
            vstd::utf8::encode_utf8("voices"@),
        ));
        path
    }
}

} // verus!
