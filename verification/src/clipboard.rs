//! Images on the clipboard: their formats and the commands that read and write them.
use crate::digits::{decimal, to_decimal};
use crate::path::{below, file_name, join_path, name_of};
use crate::split::texts;
use crate::text::concat3;
use vstd::prelude::*;
use vstd::string::*;

verus! {

/// A format of images.
#[derive(Debug, Clone, Copy, PartialEq, Eq, Structural)]
pub enum ImageFormat {
    Png,
    Jpeg,
    Gif,
    Webp,
}

impl ImageFormat {
    /// The name of the format on the clipboard.
    pub open spec fn mime_of(self) -> Seq<char> {
        match self {
            ImageFormat::Png => "image/png"@,
            ImageFormat::Jpeg => "image/jpeg"@,
            ImageFormat::Gif => "image/gif"@,
            ImageFormat::Webp => "image/webp"@,
        }
    }

    /// The extension of files in the format.
    pub open spec fn ext_of(self) -> Seq<char> {
        match self {
            ImageFormat::Png => "png"@,
            ImageFormat::Jpeg => "jpg"@,
            ImageFormat::Gif => "gif"@,
            ImageFormat::Webp => "webp"@,
        }
    }

    /// The bytes with which every image in the format begins.
    pub open spec fn magic_of(self) -> Seq<u8> {
        match self {
            ImageFormat::Png => seq![0x89u8, 0x50, 0x4e, 0x47, 0x0d, 0x0a, 0x1a, 0x0a],
            ImageFormat::Jpeg => seq![0xffu8, 0xd8, 0xff],
            ImageFormat::Gif => seq![0x47u8, 0x49, 0x46, 0x38],
            ImageFormat::Webp => seq![0x52u8, 0x49, 0x46, 0x46],
        }
    }

    /// Do the bytes look like an image in the format? They begin as one does;
    /// the bytes from the ninth to the twelfth of a WebP image name the format too.
    pub open spec fn fits(self, bytes: Seq<u8>) -> bool {
        &&& bytes.len() >= self.magic_of().len()
        &&& bytes.take(self.magic_of().len() as int) == self.magic_of()
        &&& self == ImageFormat::Webp ==> bytes.len() >= 12 && bytes.subrange(8, 12) == seq![
            0x57u8,
            0x45,
            0x42,
            0x50,
        ]
    }

    /// The name of the format on the clipboard.
    pub fn mime(self) -> (r: &'static str)
        ensures
            r@ == self.mime_of(),
    {
        match self {
            ImageFormat::Png => "image/png",
            ImageFormat::Jpeg => "image/jpeg",
            ImageFormat::Gif => "image/gif",
            ImageFormat::Webp => "image/webp",
        }
    }

    /// The extension of files in the format.
    pub fn ext(self) -> (r: &'static str)
        ensures
            r@ == self.ext_of(),
    {
        match self {
            ImageFormat::Png => "png",
            ImageFormat::Jpeg => "jpg",
            ImageFormat::Gif => "gif",
            ImageFormat::Webp => "webp",
        }
    }

    /// The bytes with which every image in the format begins.
    pub fn magic(self) -> (r: Vec<u8>)
        ensures
            r@ == self.magic_of(),
    {
        let r: Vec<u8> = match self {
            ImageFormat::Png => vec![0x89u8, 0x50, 0x4e, 0x47, 0x0d, 0x0a, 0x1a, 0x0a],
            ImageFormat::Jpeg => vec![0xffu8, 0xd8, 0xff],
            ImageFormat::Gif => vec![0x47u8, 0x49, 0x46, 0x38],
            ImageFormat::Webp => vec![0x52u8, 0x49, 0x46, 0x46],
        };
        assert(r@ =~= self.magic_of());
        r
    }

    /// Do the bytes look like an image in the format?
    pub fn matches_bytes(self, bytes: &Vec<u8>) -> (r: bool)
        ensures
            r == self.fits(bytes@),
    {
        let magic = self.magic();
        if bytes.len() < magic.len() {
            return false;
        }
        let mut i: usize = 0;
        while i < magic.len()
            invariant
                magic@ == self.magic_of(),
                i <= magic@.len() <= bytes@.len(),
                forall|j: int| 0 <= j < i ==> bytes@[j] == magic@[j],
            decreases magic.len() - i,
        {
            if bytes[i] != magic[i] {
                assert(bytes@.take(magic@.len() as int)[i as int] != magic@[i as int]);
                return false;
            }
            i += 1;
        }
        assert(bytes@.take(magic@.len() as int) =~= magic@);
        match self {
            ImageFormat::Webp => {
                if bytes.len() < 12 {
                    return false;
                }
                let same = bytes[8] == 0x57 && bytes[9] == 0x45 && bytes[10] == 0x42 && bytes[11]
                    == 0x50;
                proof {
                    let w = bytes@.subrange(8, 12);
                    let name = seq![0x57u8, 0x45, 0x42, 0x50];
                    if same {
                        assert(w =~= name);
                    } else {
                        assert(w[0] != name[0] || w[1] != name[1] || w[2] != name[2] || w[3]
                            != name[3]);
                    }
                }
                same
            },
            _ => true,
        }
    }
}

/// The formats, in the order in which they are tried.
pub open spec fn formats() -> Seq<ImageFormat> {
    seq![ImageFormat::Png, ImageFormat::Jpeg, ImageFormat::Gif, ImageFormat::Webp]
}

/// The format of an image, where it is known.
pub open spec fn format_of(bytes: Seq<u8>) -> Option<ImageFormat> {
    if ImageFormat::Png.fits(bytes) {
        Some(ImageFormat::Png)
    } else if ImageFormat::Jpeg.fits(bytes) {
        Some(ImageFormat::Jpeg)
    } else if ImageFormat::Gif.fits(bytes) {
        Some(ImageFormat::Gif)
    } else if ImageFormat::Webp.fits(bytes) {
        Some(ImageFormat::Webp)
    } else {
        None
    }
}

/// The format of an image, where it is known.
pub fn detect_format(bytes: &Vec<u8>) -> (r: Option<ImageFormat>)
    ensures
        r == format_of(bytes@),
{
    if ImageFormat::Png.matches_bytes(bytes) {
        Some(ImageFormat::Png)
    } else if ImageFormat::Jpeg.matches_bytes(bytes) {
        Some(ImageFormat::Jpeg)
    } else if ImageFormat::Gif.matches_bytes(bytes) {
        Some(ImageFormat::Gif)
    } else if ImageFormat::Webp.matches_bytes(bytes) {
        Some(ImageFormat::Webp)
    } else {
        None
    }
}

/// Bytes fit at most one format, and that is the one that is found.
pub proof fn law_format_is_unique(bytes: Seq<u8>, format: ImageFormat)
    ensures
        format.fits(bytes) <==> format_of(bytes) == Some(format),
{
    assert forall|f: ImageFormat| #[trigger] f.fits(bytes) implies bytes[0] == f.magic_of()[0] by {
        assert(bytes.take(f.magic_of().len() as int)[0] == f.magic_of()[0]);
    }
}

/// A command that reads or writes the clipboard.
pub struct ClipboardCommand {
    pub program: String,
    pub args: Vec<String>,
    pub format: ImageFormat,
}

/// What a command holds.
pub struct CommandView {
    pub program: Seq<char>,
    pub args: Seq<Seq<char>>,
    pub format: ImageFormat,
}

impl View for ClipboardCommand {
    type V = CommandView;

    open spec fn view(&self) -> CommandView {
        CommandView { program: self.program@, args: texts(self.args@), format: self.format }
    }
}

/// What the commands of a list hold.
pub open spec fn commands_view(v: Seq<ClipboardCommand>) -> Seq<CommandView> {
    v.map_values(|c: ClipboardCommand| c@)
}

/// The command that reads an image on Wayland.
pub open spec fn wl_paste(format: ImageFormat) -> CommandView {
    CommandView { program: "wl-paste"@, args: seq!["--type"@, format.mime_of()], format }
}

/// The command that reads an image on X11.
pub open spec fn xclip_paste(format: ImageFormat) -> CommandView {
    CommandView {
        program: "xclip"@,
        args: seq!["-selection"@, "clipboard"@, "-t"@, format.mime_of(), "-o"@],
        format,
    }
}

/// The commands that read an image, in the order in which they are tried.
pub open spec fn paste_commands(wayland: bool, x11: bool) -> Seq<CommandView> {
    (if wayland {
        formats().map_values(|f: ImageFormat| wl_paste(f))
    } else {
        Seq::empty()
    }) + (if x11 {
        formats().map_values(|f: ImageFormat| xclip_paste(f))
    } else {
        Seq::empty()
    })
}

/// The command that reads an image on Wayland.
fn make_wl_paste(format: ImageFormat) -> (r: ClipboardCommand)
    ensures
        r@ == wl_paste(format),
{
    let mut args: Vec<String> = Vec::new();
    args.push("--type".to_owned());
    args.push(format.mime().to_owned());
    assert(texts(args@) =~= seq!["--type"@, format.mime_of()]);
    ClipboardCommand { program: "wl-paste".to_owned(), args, format }
}

/// The command that reads an image on X11.
fn make_xclip_paste(format: ImageFormat) -> (r: ClipboardCommand)
    ensures
        r@ == xclip_paste(format),
{
    let mut args: Vec<String> = Vec::new();
    args.push("-selection".to_owned());
    args.push("clipboard".to_owned());
    args.push("-t".to_owned());
    args.push(format.mime().to_owned());
    args.push("-o".to_owned());
    assert(texts(args@) =~= seq!["-selection"@, "clipboard"@, "-t"@, format.mime_of(), "-o"@]);
    ClipboardCommand { program: "xclip".to_owned(), args, format }
}

/// The commands that read an image from the clipboard, in the order in which
/// they are tried: Wayland's before those of X11, one for each format.
pub fn clipboard_commands(wayland: bool, x11: bool) -> (r: Vec<ClipboardCommand>)
    ensures
        commands_view(r@) == paste_commands(wayland, x11),
{
    let mut cmds: Vec<ClipboardCommand> = Vec::new();
    if wayland {
        cmds.push(make_wl_paste(ImageFormat::Png));
        cmds.push(make_wl_paste(ImageFormat::Jpeg));
        cmds.push(make_wl_paste(ImageFormat::Gif));
        cmds.push(make_wl_paste(ImageFormat::Webp));
    }
    if x11 {
        cmds.push(make_xclip_paste(ImageFormat::Png));
        cmds.push(make_xclip_paste(ImageFormat::Jpeg));
        cmds.push(make_xclip_paste(ImageFormat::Gif));
        cmds.push(make_xclip_paste(ImageFormat::Webp));
    }
    assert(commands_view(cmds@) =~= paste_commands(wayland, x11));
    cmds
}

/// The command that puts an image on the clipboard on Wayland.
pub open spec fn wl_copy(format: ImageFormat) -> CommandView {
    CommandView { program: "wl-copy"@, args: seq!["--type"@, format.mime_of()], format }
}

/// The command that puts an image on the clipboard on X11.
pub open spec fn xclip_copy(format: ImageFormat) -> CommandView {
    CommandView {
        program: "xclip"@,
        args: seq![
            "-selection"@,
            "clipboard"@,
            "-t"@,
            format.mime_of(),
            "-i"@,
            "-loops"@,
            "1"@,
        ],
        format,
    }
}

/// The commands that put an image on the clipboard, in the order in which they
/// are tried; none for bytes in no known format.
pub open spec fn copy_commands_of(bytes: Seq<u8>, wayland: bool, x11: bool) -> Seq<CommandView> {
    match format_of(bytes) {
        Some(f) => (if wayland {
            seq![wl_copy(f)]
        } else {
            Seq::empty()
        }) + (if x11 {
            seq![xclip_copy(f)]
        } else {
            Seq::empty()
        }),
        None => Seq::empty(),
    }
}

/// The commands that put an image on the clipboard, in the order in which they are tried.
pub fn copy_commands(bytes: &Vec<u8>, wayland: bool, x11: bool) -> (r: Vec<ClipboardCommand>)
    ensures
        commands_view(r@) == copy_commands_of(bytes@, wayland, x11),
{
    let mut cmds: Vec<ClipboardCommand> = Vec::new();
    if let Some(format) = detect_format(bytes) {
        if wayland {
            let mut args: Vec<String> = Vec::new();
            args.push("--type".to_owned());
            args.push(format.mime().to_owned());
            assert(texts(args@) =~= wl_copy(format).args);
            cmds.push(ClipboardCommand { program: "wl-copy".to_owned(), args, format });
        }
        if x11 {
            let mut args: Vec<String> = Vec::new();
            args.push("-selection".to_owned());
            args.push("clipboard".to_owned());
            args.push("-t".to_owned());
            args.push(format.mime().to_owned());
            args.push("-i".to_owned());
            args.push("-loops".to_owned());
            args.push("1".to_owned());
            assert(texts(args@) =~= xclip_copy(format).args);
            cmds.push(ClipboardCommand { program: "xclip".to_owned(), args, format });
        }
    }
    assert(commands_view(cmds@) =~= copy_commands_of(bytes@, wayland, x11));
    cmds
}

/// Is what a command printed an image in the format that it was asked for?
pub fn is_clipboard_image(command: &ClipboardCommand, success: bool, stdout: &Vec<u8>) -> (r: bool)
    ensures
        r == (success && stdout@.len() > 0 && command.format.fits(stdout@)),
{
    success && stdout.len() > 0 && command.format.matches_bytes(stdout)
}

/// The file in which the image that the `i`-th command read is kept.
pub open spec fn clip_file(dir: Seq<char>, stamp: u64, i: usize, format: ImageFormat) -> Seq<char> {
    below(
        dir,
        "clip-"@ + decimal(stamp as nat) + "-"@ + decimal(i as nat) + "."@ + format.ext_of(),
    )
}

/// The file in which the image that the `i`-th command read is kept; `stamp` is
/// the time in milliseconds.
pub fn clip_path(dir: &str, stamp: u64, i: usize, format: ImageFormat) -> (r: String)
    ensures
        r@ == clip_file(dir@, stamp, i, format),
{
    let mut name = concat3("clip-", to_decimal(stamp).as_str(), "-");
    name.append(to_decimal(i as u64).as_str());
    name.append(".");
    name.append(format.ext());
    join_path(dir, name.as_str())
}

/// What stands for an image that cannot be shown.
pub open spec fn image_name_of(path: Seq<char>) -> Seq<char> {
    match name_of(path) {
        Some(n) => n,
        None => "image"@,
    }
}

/// What stands for an image that cannot be shown: the name of its file.
pub fn image_name(path: &str) -> (r: String)
    ensures
        r@ == image_name_of(path@),
{
    match file_name(path) {
        Some(n) => n,
        None => "image".to_owned(),
    }
}

/// Images are read from the clipboard in each format, by the tool of each display that is
/// there: the tool is asked for the format's own type, and what it prints is held to the
/// format.
pub proof fn law_each_format_is_asked_for(i: int, wayland: bool, x11: bool)
    requires
        0 <= i < 4,
    ensures
        formats().len() == 4,
        formats().contains(ImageFormat::Png) && formats().contains(ImageFormat::Jpeg)
            && formats().contains(ImageFormat::Gif) && formats().contains(ImageFormat::Webp),
        paste_commands(wayland, x11).len() == (if wayland {
            4int
        } else {
            0int
        }) + (if x11 {
            4int
        } else {
            0int
        }),
        wayland ==> ({
            let c = paste_commands(wayland, x11)[i];
            &&& c.program == "wl-paste"@ && c.format == formats()[i]
            &&& c.args == seq!["--type"@, formats()[i].mime_of()]
        }),
        x11 ==> ({
            let c = paste_commands(wayland, x11)[if wayland {
                i + 4
            } else {
                i
            }];
            &&& c.program == "xclip"@ && c.format == formats()[i]
            &&& c.args == seq!["-selection"@, "clipboard"@, "-t"@, formats()[i].mime_of(), "-o"@]
        }),
{
    assert(formats()[0] == ImageFormat::Png && formats()[1] == ImageFormat::Jpeg && formats()[2]
        == ImageFormat::Gif && formats()[3] == ImageFormat::Webp);
}

/// An image is put on the clipboard under the type of its own format, by the tool of each
/// display that is there; what is no image is not put there.
pub proof fn law_image_is_copied_under_its_type(bytes: Seq<u8>, wayland: bool, x11: bool, f: ImageFormat)
    requires
        f.fits(bytes),
    ensures
        wayland && !x11 ==> copy_commands_of(bytes, wayland, x11) == seq![
            CommandView { program: "wl-copy"@, args: seq!["--type"@, f.mime_of()], format: f },
        ],
        x11 ==> copy_commands_of(bytes, wayland, x11).len() > 0 && copy_commands_of(
            bytes,
            wayland,
            x11,
        ).last().program == "xclip"@ && copy_commands_of(bytes, wayland, x11).last().args == seq![
            "-selection"@,
            "clipboard"@,
            "-t"@,
            f.mime_of(),
            "-i"@,
            "-loops"@,
            "1"@,
        ],
        wayland && x11 ==> copy_commands_of(bytes, wayland, x11).len() == 2 && copy_commands_of(
            bytes,
            wayland,
            x11,
        )[0].program == "wl-copy"@,
        !wayland && !x11 ==> copy_commands_of(bytes, wayland, x11).len() == 0,
{
    law_format_is_unique(bytes, f);
    if wayland && !x11 {
        assert(copy_commands_of(bytes, wayland, x11) =~= seq![wl_copy(f)]);
    }
}

/// Each format has its own type and file extension, and is told by its first bytes.
pub proof fn law_formats_have_names(bytes: Seq<u8>)
    ensures
        ImageFormat::Png.mime_of() == "image/png"@ && ImageFormat::Png.ext_of() == "png"@,
        ImageFormat::Jpeg.mime_of() == "image/jpeg"@ && ImageFormat::Jpeg.ext_of() == "jpg"@,
        ImageFormat::Gif.mime_of() == "image/gif"@ && ImageFormat::Gif.ext_of() == "gif"@,
        ImageFormat::Webp.mime_of() == "image/webp"@ && ImageFormat::Webp.ext_of() == "webp"@,
        format_of(bytes) == Some(ImageFormat::Jpeg) <==> bytes.len() >= 3 && bytes[0] == 0xff
            && bytes[1] == 0xd8 && bytes[2] == 0xff,
        format_of(bytes) == Some(ImageFormat::Gif) <==> bytes.len() >= 4 && bytes[0] == 0x47
            && bytes[1] == 0x49 && bytes[2] == 0x46 && bytes[3] == 0x38,
        format_of(bytes) == Some(ImageFormat::Png) <==> bytes.len() >= 8 && bytes[0] == 0x89
            && bytes[1] == 0x50 && bytes[2] == 0x4e && bytes[3] == 0x47 && bytes[4] == 0x0d
            && bytes[5] == 0x0a && bytes[6] == 0x1a && bytes[7] == 0x0a,
        format_of(bytes) == Some(ImageFormat::Webp) <==> bytes.len() >= 12 && bytes[0] == 0x52
            && bytes[1] == 0x49 && bytes[2] == 0x46 && bytes[3] == 0x46 && bytes[8] == 0x57
            && bytes[9] == 0x45 && bytes[10] == 0x42 && bytes[11] == 0x50,
{
    law_format_is_unique(bytes, ImageFormat::Png);
    law_format_is_unique(bytes, ImageFormat::Jpeg);
    law_format_is_unique(bytes, ImageFormat::Gif);
    law_format_is_unique(bytes, ImageFormat::Webp);
    lemma_magic(bytes, ImageFormat::Png);
    lemma_magic(bytes, ImageFormat::Jpeg);
    lemma_magic(bytes, ImageFormat::Gif);
    lemma_magic(bytes, ImageFormat::Webp);
    if bytes.len() >= 12 {
        let w = bytes.subrange(8, 12);
        let name = seq![0x57u8, 0x45, 0x42, 0x50];
        if bytes[8] == 0x57 && bytes[9] == 0x45 && bytes[10] == 0x42 && bytes[11] == 0x50 {
            assert(w =~= name);
        }
        if w == name {
            assert(w[0] == 0x57 && w[1] == 0x45 && w[2] == 0x42 && w[3] == 0x50);
        }
    }
}

/// The first bytes of a format, one by one.
proof fn lemma_magic(bytes: Seq<u8>, f: ImageFormat)
    ensures
        (bytes.len() >= f.magic_of().len() && bytes.take(f.magic_of().len() as int)
            == f.magic_of()) <==> (bytes.len() >= f.magic_of().len() && forall|i: int|
            0 <= i < f.magic_of().len() ==> bytes[i] == #[trigger] f.magic_of()[i]),
{
    let m = f.magic_of();
    if bytes.len() >= m.len() {
        if bytes.take(m.len() as int) == m {
            assert forall|i: int| 0 <= i < m.len() implies bytes[i] == #[trigger] m[i] by {
                assert(bytes.take(m.len() as int)[i] == m[i]);
            }
        } else if forall|i: int| 0 <= i < m.len() ==> bytes[i] == #[trigger] m[i] {
            assert(bytes.take(m.len() as int) =~= m);
        }
    }
}

/// What a command prints counts as an image only where it succeeded and what it printed is
/// in the format that it was asked for.
pub proof fn law_printed_image_has_its_format(
    command: ClipboardCommand,
    success: bool,
    stdout: Vec<u8>,
    r: bool,
)
    requires
        call_ensures(is_clipboard_image, (&command, success, &stdout), r),
    ensures
        r <==> success && format_of(stdout@) == Some(command.format),
{
    law_format_is_unique(stdout@, command.format);
}

/// The file of a pasted image is named by the time and by the command that read it, with
/// the extension of its format.
pub proof fn law_clip_file_is_named_by_time(dir: Seq<char>, stamp: u64, i: usize, f: ImageFormat)
    ensures
        clip_file(dir, stamp, i, f) == below(
            dir,
            "clip-"@ + decimal(stamp as nat) + "-"@ + decimal(i as nat) + "."@ + f.ext_of(),
        ),
{
}

/// An image that cannot be shown is told by the name of its file.
pub proof fn law_unshown_image_is_named(path: Seq<char>)
    ensures
        name_of(path) is Some ==> image_name_of(path) == name_of(path)->0,
        name_of(path) is None ==> image_name_of(path) == "image"@,
{
}

} // verus!
