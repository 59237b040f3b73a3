//! Remote files: a projected record joined with the handle it came from.

use vstd::prelude::*;

use crate::auth::WebdavAuth;
use crate::text::{copy_opt_str, opt_view};
use crate::webdav::{kept, listed, projects, views, MultiStatus, RemoteFileData};

verus! {

/// Two records that agree on every field.
pub open spec fn same_record(a: RemoteFileData, b: RemoteFileData) -> bool {
    &&& a.base_url@ == b.base_url@
    &&& a.relative_root_path@ == b.relative_root_path@
    &&& a.absolute_path@ == b.absolute_path@
    &&& a.name@ == b.name@
    &&& a.is_dir == b.is_dir
    &&& a.size == b.size
    &&& a.last_modified == b.last_modified
    &&& opt_view(a.mime) == opt_view(b.mime)
    &&& opt_view(a.owner) == opt_view(b.owner)
    &&& opt_view(a.etag) == opt_view(b.etag)
    &&& views(a.privileges@) == views(b.privileges@)
}

fn copy_strings(v: &Vec<String>) -> (r: Vec<String>)
    ensures
        views(r@) == views(v@),
{
    let mut out: Vec<String> = Vec::new();
    let mut i: usize = 0;
    while i < v.len()
        invariant
            0 <= i <= v@.len(),
            out@ == v@.subrange(0, i as int),
        decreases v@.len() - i,
    {
        let s = v[i].clone();
        out.push(s);
        i = i + 1;
        proof {
            assert(out@ =~= v@.subrange(0, i as int));
        }
    }
    proof {
        assert(v@.subrange(0, v@.len() as int) =~= v@);
    }
    out
}

impl RemoteFileData {
    /// A copy of the record.
    pub fn duplicate(&self) -> (r: Self)
        ensures
            same_record(r, *self),
    {
        RemoteFileData {
            base_url: self.base_url.clone(),
            relative_root_path: self.relative_root_path.clone(),
            absolute_path: self.absolute_path.clone(),
            name: self.name.clone(),
            is_dir: self.is_dir,
            size: self.size,
            last_modified: self.last_modified,
            mime: copy_opt_str(&self.mime),
            owner: copy_opt_str(&self.owner),
            etag: copy_opt_str(&self.etag),
            privileges: copy_strings(&self.privileges),
        }
    }
}

/// A remote file or directory together with the handle used to reach it.
pub struct RemoteFile {
    pub data: RemoteFileData,
    pub webdav_auth: WebdavAuth,
}

impl RemoteFile {
    /// The remote files a listing describes (see `to_remote_file_data`), each
    /// joined with a copy of the handle.
    pub fn from_multi_status(webdav_auth: &WebdavAuth, multi_status: MultiStatus) -> (r: Result<
        Vec<Self>,
        String,
    >)
        ensures
            r matches Ok(v) && v@.len() == kept(listed(multi_status.responses@)).len() && forall|k: int|
                0 <= k < v@.len() ==> {
                    &&& projects(#[trigger] v@[k].data, webdav_auth.base(), kept(
                        listed(multi_status.responses@),
                    )[k])
                    &&& v@[k].webdav_auth.base() == webdav_auth.base()
                    &&& v@[k].webdav_auth.fingerprint() == webdav_auth.fingerprint()
                },
    {
        let ghost ks = kept(listed(multi_status.responses@));
        let records = match multi_status.to_remote_file_data(webdav_auth.base_url()) {
            Ok(v) => v,
            Err(e) => {
                return Err(e);
            },
        };
        let mut files: Vec<RemoteFile> = Vec::new();
        let mut i: usize = 0;
        while i < records.len()
            invariant
                records@.len() == ks.len(),
                forall|k: int| 0 <= k < records@.len() ==> projects(#[trigger] records@[k], webdav_auth.base(), ks[k]),
                0 <= i <= records@.len(),
                files@.len() == i,
                forall|k: int|
                    0 <= k < i ==> {
                        &&& projects(#[trigger] files@[k].data, webdav_auth.base(), ks[k])
                        &&& files@[k].webdav_auth.base() == webdav_auth.base()
                        &&& files@[k].webdav_auth.fingerprint() == webdav_auth.fingerprint()
                    },
            decreases records@.len() - i,
        {
            let d = records[i].duplicate();
            assert(projects(records@[i as int], webdav_auth.base(), ks[i as int]));
            files.push(RemoteFile { data: d, webdav_auth: webdav_auth.duplicate() });
            i = i + 1;
        }
        Ok(files)
    }
}

/// Lists local files. The local listing is not offered yet: the list is
/// always empty.
pub fn get_local_files() -> (r: Result<Vec<String>, String>)
    ensures
        r matches Ok(v) && v@.len() == 0,
{
    Ok(Vec::new())
}

} // verus!
