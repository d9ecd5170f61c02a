//! What holds of every fast-path attempt.

use crate::command::CommandView;
use crate::exec::{is_safe_word, sh_quoted, spaced};
use crate::exec_laws::{sh_words, spaced_words_round_trip};
use crate::fastpath::{
    deletes_of, fits, gives_up, lossy_texts, sends_of, tar_command,
    too_many_bytes_text, too_many_files_text, total_bytes, unpack_command, unpacker_text,
    zero_ended, zstd_probe, Compression, FastAttempt, FastStep, FileSize, Outcome,
};
use crate::paths::lossy_text;
use crate::target::TargetView;
use crate::text::{decimal, group_views, views};
use crate::wquery::ChangedFileView;
use vstd::prelude::*;
use vstd::utf8::encode_utf8;

verus! {

/// Every changed path is sent if it is there (and is no directory, whose
/// files come as their own changes) and deleted if it is gone.
pub proof fn every_change_is_accounted_for(files: Seq<ChangedFileView>, k: int)
    requires
        0 <= k < files.len(),
    ensures
        files[k].exists && files[k].file_type != Some("d"@) ==> sends_of(files).contains(
            files[k].name,
        ),
        !files[k].exists ==> deletes_of(files).contains(files[k].name),
    decreases files.len(),
{
    let sends = sends_of(files);
    let deletes = deletes_of(files);
    if k == files.len() - 1 {
        if files[k].exists && files[k].file_type != Some("d"@) {
            assert(sends[sends.len() - 1] == files[k].name);
        }
        if !files[k].exists {
            assert(deletes[deletes.len() - 1] == files[k].name);
        }
    } else {
        let init = files.drop_last();
        assert(init[k] == files[k]);
        every_change_is_accounted_for(init, k);
        if files[k].exists && files[k].file_type != Some("d"@) {
            let i = choose|i: int|
                0 <= i < sends_of(init).len() && sends_of(init)[i] == files[k].name;
            assert(sends[i] == files[k].name);
        }
        if !files[k].exists {
            let i = choose|i: int|
                0 <= i < deletes_of(init).len() && deletes_of(init)[i] == files[k].name;
            assert(deletes[i] == files[k].name);
        }
    }
}

/// Whether one of the changed paths has the given name and is there, and is
/// no directory.
pub open spec fn some_file_is_there(files: Seq<ChangedFileView>, name: Seq<u8>) -> bool {
    exists|k: int|
        0 <= k < files.len() && (#[trigger] files[k]).exists && files[k].file_type != Some("d"@)
            && files[k].name == name
}

/// Whether one of the changed paths has the given name and is gone.
pub open spec fn some_path_is_gone(files: Seq<ChangedFileView>, name: Seq<u8>) -> bool {
    exists|k: int|
        0 <= k < files.len() && !(#[trigger] files[k]).exists && files[k].name == name
}

/// Nothing is sent or deleted that has not changed, and no directory is
/// sent.
pub proof fn only_changes_are_applied(files: Seq<ChangedFileView>)
    ensures
        forall|i: int|
            0 <= i < sends_of(files).len() ==> some_file_is_there(
                files,
                #[trigger] sends_of(files)[i],
            ),
        forall|i: int|
            0 <= i < deletes_of(files).len() ==> some_path_is_gone(
                files,
                #[trigger] deletes_of(files)[i],
            ),
    decreases files.len(),
{
    if files.len() > 0 {
        let init = files.drop_last();
        let n = files.len() - 1;
        only_changes_are_applied(init);
        assert forall|i: int| 0 <= i < sends_of(files).len() implies some_file_is_there(
            files,
            #[trigger] sends_of(files)[i],
        ) by {
            if i < sends_of(init).len() {
                let name = sends_of(init)[i];
                assert(sends_of(files)[i] == name);
                let k = choose|k: int|
                    0 <= k < init.len() && (#[trigger] init[k]).exists && init[k].file_type != Some(
                        "d"@,
                    ) && init[k].name == name;
                assert(files[k] == init[k]);
            } else {
                assert(files[n].exists && files[n].file_type != Some("d"@));
            }
        }
        assert forall|i: int| 0 <= i < deletes_of(files).len() implies some_path_is_gone(
            files,
            #[trigger] deletes_of(files)[i],
        ) by {
            if i < deletes_of(init).len() {
                let name = deletes_of(init)[i];
                assert(deletes_of(files)[i] == name);
                let k = choose|k: int|
                    0 <= k < init.len() && !(#[trigger] init[k]).exists && init[k].name == name;
                assert(files[k] == init[k]);
            } else {
                assert(!files[n].exists);
            }
        }
    }
}

/// The names that tar reads in a list: each is ended by a zero byte. `name`
/// is what has been read of the next one.
pub open spec fn listed_names(list: Seq<u8>, name: Seq<u8>) -> Seq<Seq<u8>>
    decreases list.len(),
{
    if list.len() == 0 {
        Seq::empty()
    } else if list[0] == 0 {
        seq![name] + listed_names(list.skip(1), Seq::empty())
    } else {
        listed_names(list.skip(1), name.push(list[0]))
    }
}

proof fn lemma_listed_name(name: Seq<u8>, before: Seq<u8>, rest: Seq<u8>)
    requires
        !name.contains(0),
    ensures
        listed_names(name + seq![0u8] + rest, before) == seq![before + name] + listed_names(
            rest,
            Seq::empty(),
        ),
    decreases name.len(),
{
    let list = name + seq![0u8] + rest;
    if name.len() == 0 {
        assert(list[0] == 0);
        assert(list.skip(1) =~= rest);
        assert(before + name =~= before);
    } else {
        let tail = name.skip(1);
        assert(name[0] != 0);
        assert(list[0] == name[0]);
        assert forall|i: int| 0 <= i < tail.len() implies tail[i] != 0 by {
            assert(tail[i] == name[i + 1]);
        }
        assert(list.skip(1) =~= tail + seq![0u8] + rest);
        lemma_listed_name(tail, before.push(name[0]), rest);
        assert(before.push(name[0]) + tail =~= before + name);
    }
}

proof fn lemma_zero_ended_front(names: Seq<Seq<u8>>)
    requires
        names.len() > 0,
    ensures
        zero_ended(names) == names[0] + seq![0u8] + zero_ended(names.skip(1)),
    decreases names.len(),
{
    if names.len() == 1 {
        assert(names.drop_last() =~= Seq::empty());
        assert(names.skip(1) =~= Seq::empty());
        assert(zero_ended(names) =~= names[0] + seq![0u8] + zero_ended(names.skip(1)));
    } else {
        lemma_zero_ended_front(names.drop_last());
        assert(names.drop_last().skip(1) =~= names.skip(1).drop_last());
        assert(zero_ended(names) =~= names[0] + seq![0u8] + zero_ended(names.skip(1)));
    }
}

/// tar reads exactly the names of the files to send, whatever bytes other
/// than zero they hold.
pub proof fn file_lists_read_back(names: Seq<Seq<u8>>)
    requires
        forall|k: int| 0 <= k < names.len() ==> !(#[trigger] names[k]).contains(0),
    ensures
        listed_names(zero_ended(names), Seq::empty()) == names,
    decreases names.len(),
{
    if names.len() == 0 {
        assert(listed_names(zero_ended(names), Seq::empty()) =~= names);
    } else {
        let tail = names.skip(1);
        assert forall|k: int| 0 <= k < tail.len() implies !(#[trigger] tail[k]).contains(0) by {
            assert(tail[k] == names[k + 1]);
        }
        assert(!names[0].contains(0));
        lemma_zero_ended_front(names);
        file_lists_read_back(tail);
        lemma_listed_name(names[0], Seq::empty(), zero_ended(tail));
        assert(Seq::<u8>::empty() + names[0] =~= names[0]);
        assert(seq![names[0]] + tail =~= names);
    }
}

proof fn lemma_spaced_add(a: Seq<Seq<char>>, b: Seq<Seq<char>>)
    ensures
        spaced(a + b) == spaced(a) + spaced(b),
    decreases b.len(),
{
    if b.len() == 0 {
        assert(a + b =~= a);
        assert(spaced(a) + spaced(b) =~= spaced(a));
    } else {
        lemma_spaced_add(a, b.drop_last());
        assert((a + b).drop_last() =~= a + b.drop_last());
        assert(spaced(a + b) =~= spaced(a) + spaced(b));
    }
}

/// The deletions that the target's shell reads are exactly the paths to
/// delete, whatever characters they hold.
pub proof fn deletions_read_back(deletes: Seq<Seq<u8>>)
    ensures
        sh_words("rm -rf --"@ + spaced(lossy_texts(deletes))) == Some(
            seq!["rm"@, "-rf"@, "--"@] + lossy_texts(deletes),
        ),
{
    reveal_strlit("rm -rf --");
    reveal_strlit("rm");
    reveal_strlit("-rf");
    reveal_strlit("--");
    let options = seq!["-rf"@, "--"@];
    let texts = lossy_texts(deletes);
    assert(is_safe_word("rm"@));
    assert(is_safe_word("-rf"@));
    assert(is_safe_word("--"@));
    reveal_with_fuel(spaced, 3);
    assert(options.drop_last() =~= seq!["-rf"@]);
    assert(options.drop_last().drop_last() =~= Seq::empty());
    assert(spaced(options) =~= seq![' '] + "-rf"@ + seq![' '] + "--"@);
    lemma_spaced_add(options, texts);
    assert("rm -rf --"@ + spaced(texts) =~= "rm"@ + spaced(options + texts));
    spaced_words_round_trip("rm"@, options + texts);
    assert(seq!["rm"@] + (options + texts) =~= seq!["rm"@, "-rf"@, "--"@] + texts);
}

proof fn lemma_sorted_one(file: ChangedFileView)
    ensures
        sends_of(seq![file]) == (if file.exists && file.file_type != Some("d"@) {
            seq![file.name]
        } else {
            Seq::empty()
        }),
        deletes_of(seq![file]) == (if file.exists {
            Seq::empty()
        } else {
            seq![file.name]
        }),
{
    assert(seq![file].drop_last() =~= Seq::empty());
    reveal_with_fuel(sends_of, 2);
    reveal_with_fuel(deletes_of, 2);
    assert(Seq::<Seq<u8>>::empty().push(file.name) =~= seq![file.name]);
}

/// Changes are sorted one by one, in order: a path that is there, and no
/// directory, is sent, and one that is gone is deleted, whatever else has
/// changed.
pub proof fn changes_are_sorted_one_by_one(
    before: Seq<ChangedFileView>,
    file: ChangedFileView,
    after: Seq<ChangedFileView>,
)
    ensures
        sends_of(Seq::empty()).len() == 0,
        deletes_of(Seq::empty()).len() == 0,
        sends_of(before + seq![file] + after) == sends_of(before) + (if file.exists
            && file.file_type != Some("d"@) {
            seq![file.name]
        } else {
            Seq::empty()
        }) + sends_of(after),
        deletes_of(before + seq![file] + after) == deletes_of(before) + (if file.exists {
            Seq::empty()
        } else {
            seq![file.name]
        }) + deletes_of(after),
{
    lemma_sorted_one(file);
    lemma_sorted_add(before, seq![file]);
    lemma_sorted_add(before + seq![file], after);
}

proof fn lemma_sorted_add(a: Seq<ChangedFileView>, b: Seq<ChangedFileView>)
    ensures
        sends_of(a + b) == sends_of(a) + sends_of(b),
        deletes_of(a + b) == deletes_of(a) + deletes_of(b),
    decreases b.len(),
{
    if b.len() == 0 {
        assert(a + b =~= a);
        assert(sends_of(a) + sends_of(b) =~= sends_of(a));
        assert(deletes_of(a) + deletes_of(b) =~= deletes_of(a));
    } else {
        lemma_sorted_add(a, b.drop_last());
        assert((a + b).drop_last() =~= a + b.drop_last());
        assert(sends_of(a + b) =~= sends_of(a) + sends_of(b));
        assert(deletes_of(a + b) =~= deletes_of(a) + deletes_of(b));
    }
}

proof fn lemma_limit_texts(n: nat)
    ensures
        too_many_files_text(n) == decimal(n) + " changed files exceed the fast-path limit of 64"@,
        too_many_bytes_text() == "changed files exceed the fast-path byte budget of 8388608"@,
{
    reveal_strlit(" changed files exceed the fast-path limit of 64");
    reveal_strlit(" changed files exceed the fast-path limit of ");
    reveal_strlit("changed files exceed the fast-path byte budget of 8388608");
    reveal_strlit("changed files exceed the fast-path byte budget of ");
    reveal_with_fuel(decimal, 8);
    assert(decimal(64) =~= seq!['6', '4']);
    assert(decimal(8388608) =~= seq!['8', '3', '8', '8', '6', '0', '8']);
    assert(too_many_files_text(n) =~= decimal(n)
        + " changed files exceed the fast-path limit of 64"@);
    assert(too_many_bytes_text() =~= "changed files exceed the fast-path byte budget of 8388608"@);
}

/// An attempt goes on exactly if the result is of a living instance and has
/// something to send or delete, and no more than 64 files to send; it then
/// looks at every changed file that is there. Otherwise it says why not.
pub proof fn small_changes_go_on(attempt: FastAttempt, step: FastStep)
    requires
        attempt.after_query(step),
    ensures
        attempt.changes.is_fresh_instance ==> (step matches FastStep::Done(Outcome::Fallback(why))
            && why@ == "watchman reported a fresh instance"@),
        step == FastStep::Done(Outcome::NoChanges) <==> !attempt.changes.is_fresh_instance
            && forall|k: int|
            0 <= k < attempt.changes.files@.len() ==> (#[trigger] attempt.changes.files@[k]).exists
                && attempt.changes.files@[k]@.file_type == Some("d"@),
        !attempt.changes.is_fresh_instance && sends_of(views(attempt.changes.files@)).len() > 64
            ==> (step matches FastStep::Done(Outcome::Fallback(why)) && why@ == decimal(
            sends_of(views(attempt.changes.files@)).len(),
        ) + " changed files exceed the fast-path limit of 64"@),
        !attempt.changes.is_fresh_instance && sends_of(views(attempt.changes.files@)).len() <= 64
            && step != FastStep::Done(Outcome::NoChanges) ==> (step matches FastStep::Measure(paths)
            && views(paths@) == sends_of(views(attempt.changes.files@))),
{
    broadcast use group_views;

    let files = attempt.changes.files@;
    let all = views(files);
    lemma_limit_texts(sends_of(all).len());
    assert forall|k: int| 0 <= k < files.len() implies all[k] == (#[trigger] files[k])@ by {}
    if sends_of(all).len() == 0 && deletes_of(all).len() == 0 {
        assert forall|k: int| 0 <= k < files.len() implies (#[trigger] files[k]).exists
            && files[k]@.file_type == Some("d"@) by {
            every_change_is_accounted_for(all, k);
        }
    } else {
        only_changes_are_applied(all);
        if sends_of(all).len() > 0 {
            let name = sends_of(all)[0];
            assert(some_file_is_there(all, name));
            let k = choose|k: int|
                0 <= k < all.len() && (#[trigger] all[k]).exists && all[k].file_type != Some("d"@)
                    && all[k].name == name;
            assert(files[k]@ == all[k]);
        } else {
            let name = deletes_of(all)[0];
            assert(some_path_is_gone(all, name));
            let k = choose|k: int|
                0 <= k < all.len() && !(#[trigger] all[k]).exists && all[k].name == name;
            assert(files[k]@ == all[k]);
        }
    }
}

/// The byte budget is eight mebibytes for all files together, each counted
/// with its own size.
pub proof fn the_budget_is_for_all_files_together(sizes: Seq<FileSize>, n: int)
    requires
        0 <= n <= sizes.len(),
    ensures
        total_bytes(sizes, 0) == 0,
        n > 0 ==> total_bytes(sizes, n) == total_bytes(sizes, n - 1) + (match sizes[n - 1] {
            FileSize::Bytes(len) => len as nat,
            _ => 0nat,
        }),
        fits(sizes, n) <==> total_bytes(sizes, n) <= 8388608 && forall|k: int|
            0 <= k < n ==> (#[trigger] sizes[k]) is Bytes,
{
}

/// Files are archived, or deletions applied, only if all files to send are
/// there and fit the budget. Otherwise the first one that is not there,
/// cannot be looked at or does not fit says why.
pub proof fn measured_files_are_sent_if_they_fit(
    attempt: FastAttempt,
    sizes: Seq<FileSize>,
    step: FastStep,
)
    requires
        sizes.len() == sends_of(views(attempt.changes.files@)).len(),
        attempt.after_measuring(sizes, step),
    ensures
        total_bytes(sizes, sizes.len() as int) <= 8388608 && (forall|k: int|
            0 <= k < sizes.len() ==> (#[trigger] sizes[k]) is Bytes) ==> {
            if sizes.len() > 0 {
                step matches FastStep::Archive { cmd, names } && cmd@ == tar_command(
                    attempt.repo_root@,
                    attempt.compression,
                ) && names@ == zero_ended(sends_of(views(attempt.changes.files@)))
            } else {
                step matches FastStep::Unpack(cmd) && cmd@ == attempt.unpacking()
            }
        },
        step is Archive || step is Unpack || step is Done || step is Fail,
        step is Archive || step is Unpack ==> total_bytes(sizes, sizes.len() as int) <= 8388608
            && forall|k: int| 0 <= k < sizes.len() ==> (#[trigger] sizes[k]) is Bytes,
        !(step is Archive || step is Unpack) ==> exists|n: int|
            0 <= n < sizes.len() && #[trigger] keeps_from_sending(
                sends_of(views(attempt.changes.files@)),
                sizes,
                n,
                step,
            ) && forall|k: int| 0 <= k < n ==> (#[trigger] sizes[k]) is Bytes,
{
    let sends = sends_of(views(attempt.changes.files@));
    if !fits(sizes, sizes.len() as int) {
        let n = choose|n: int|
            0 <= n < sizes.len() && fits(sizes, n) && #[trigger] gives_up(sends, sizes, n, step);
        lemma_limit_texts(0);
        assert(keeps_from_sending(sends, sizes, n, step));
    }
}

/// Whether `step` ends an attempt because of file `n`: it is gone, cannot be
/// looked at, or makes the files too large together.
pub open spec fn keeps_from_sending(
    sends: Seq<Seq<u8>>,
    sizes: Seq<FileSize>,
    n: int,
    step: FastStep,
) -> bool {
    match sizes[n] {
        FileSize::Vanished => step matches FastStep::Done(Outcome::Fallback(why)) && why@
            == lossy_text(sends[n]) + " vanished mid-fast-path"@,
        FileSize::Failed(reason) => step matches FastStep::Fail { path, cause } && path@ == sends[n]
            && cause@ == reason@,
        FileSize::Bytes(_) => total_bytes(sizes, n + 1) > 8388608 && (
        step matches FastStep::Done(Outcome::Fallback(why)) && why@
            == "changed files exceed the fast-path byte budget of 8388608"@),
    }
}

/// tar archives, from the repository's root, the files named on its standard
/// input, and writes to its standard output.
pub proof fn tar_reads_the_names_and_writes_the_archive(repo_root: Seq<u8>)
    ensures
        tar_command(repo_root, Compression::Uncompressed) == (CommandView {
            program: "tar"@,
            args: seq![
                encode_utf8("-c"@),
                encode_utf8("-C"@),
                repo_root,
                encode_utf8("--null"@),
                encode_utf8("-T"@),
                encode_utf8("-"@),
                encode_utf8("-f"@),
                encode_utf8("-"@),
            ],
            cwd: None,
        }),
        tar_command(repo_root, Compression::Zstd) == (CommandView {
            args: tar_command(repo_root, Compression::Uncompressed).args.push(
                encode_utf8("--zstd"@),
            ),
            ..tar_command(repo_root, Compression::Uncompressed)
        }),
{
    let plain = tar_command(repo_root, Compression::Uncompressed);
    assert(plain.args =~= seq![
        encode_utf8("-c"@),
        encode_utf8("-C"@),
        repo_root,
        encode_utf8("--null"@),
        encode_utf8("-T"@),
        encode_utf8("-"@),
        encode_utf8("-f"@),
        encode_utf8("-"@),
    ]);
    assert(tar_command(repo_root, Compression::Zstd).args =~= plain.args.push(
        encode_utf8("--zstd"@),
    ));
}

/// The target first deletes every path to delete, if there is one, and then
/// extracts the archive, if there is one, as it was made.
pub proof fn the_target_deletes_and_extracts(
    deletes: Seq<Seq<u8>>,
    has_sends: bool,
    compression: Compression,
)
    ensures
        unpacker_text(deletes, has_sends, compression) == (if deletes.len() == 0 {
            Seq::empty()
        } else {
            "rm -rf --"@ + spaced(lossy_texts(deletes))
        }) + (if deletes.len() > 0 && has_sends {
            " && "@
        } else {
            Seq::empty()
        }) + (if !has_sends {
            Seq::empty()
        } else {
            match compression {
                Compression::Zstd => "tar -x --zstd -f -"@,
                Compression::Uncompressed => "tar -x -f -"@,
            }
        }),
        lossy_texts(deletes).len() == deletes.len(),
        forall|k: int|
            0 <= k < deletes.len() ==> #[trigger] lossy_texts(deletes)[k] == lossy_text(deletes[k]),
{
    let removal = "rm -rf --"@ + spaced(lossy_texts(deletes));
    let extraction = match compression {
        Compression::Zstd => "tar -x --zstd -f -"@,
        Compression::Uncompressed => "tar -x -f -"@,
    };
    let none = Seq::<char>::empty();
    assert(none + none + extraction =~= extraction);
    assert(none + none + none =~= none);
    assert(removal + none + none =~= removal);
}

/// The script runs in the replica: as the working directory of a shell for a
/// local target, and, on the host of a remote one, after entering it.
pub proof fn scripts_run_in_the_replica(target: TargetView, script: Seq<char>)
    ensures
        match target {
            TargetView::Local(path) => unpack_command(target, script) == (CommandView {
                program: "sh"@,
                args: seq![encode_utf8("-c"@), encode_utf8(script)],
                cwd: Some(path),
            }),
            TargetView::Remote { host, path } => unpack_command(target, script) == (CommandView {
                program: "ssh"@,
                args: seq![
                    encode_utf8(host),
                    encode_utf8("cd"@ + spaced(seq![path]) + " && "@ + script),
                ],
                cwd: None,
            }),
        },
        zstd_probe(None) == (CommandView {
            program: "zstd"@,
            args: seq![encode_utf8("-V"@)],
            cwd: None,
        }),
        match target {
            TargetView::Remote { host, .. } => zstd_probe(Some(host)) == (CommandView {
                program: "ssh"@,
                args: seq![encode_utf8(host), encode_utf8("command -v zstd"@)],
                cwd: None,
            }),
            _ => true,
        },
{
    let cmd = unpack_command(target, script);
    match target {
        TargetView::Local(path) => {
            assert(cmd.args =~= seq![encode_utf8("-c"@), encode_utf8(script)]);
        },
        TargetView::Remote { host, path } => {
            reveal_strlit("cd");
            reveal_strlit("cd ");
            reveal_with_fuel(spaced, 2);
            assert(seq![path].drop_last() =~= Seq::empty());
            assert("cd"@ + spaced(seq![path]) =~= "cd "@ + sh_quoted(path));
            assert(cmd.args =~= seq![
                encode_utf8(host),
                encode_utf8("cd"@ + spaced(seq![path]) + " && "@ + script),
            ]);
            assert(zstd_probe(Some(host)).args =~= seq![
                encode_utf8(host),
                encode_utf8("command -v zstd"@),
            ]);
        },
    }
    assert(zstd_probe(None).args =~= seq![encode_utf8("-V"@)]);
}

/// What is unpacked deletes exactly the changed paths that are gone, and
/// extracts an archive exactly if a changed file is there.
pub proof fn attempts_unpack_their_changes(attempt: FastAttempt)
    ensures
        attempt.unpacking() == unpack_command(
            attempt.target@,
            unpacker_text(
                deletes_of(views(attempt.changes.files@)),
                sends_of(views(attempt.changes.files@)).len() > 0,
                attempt.compression,
            ),
        ),
{
}

} // verus!
