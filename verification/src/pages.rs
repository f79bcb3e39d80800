//! The text of the pages that the library serves, between the values that go into them.

use vstd::prelude::*;

verus! {

pub const CHALLENGE_0: &'static str = r##"<!doctype html>
<html lang="en"><head>
<meta charset="utf-8"><meta name="viewport" content="width=device-width,initial-scale=1">
<title>Security Check · Project Aretuze</title>
<link rel="preconnect" href="https://fonts.googleapis.com">
<link rel="preconnect" href="https://fonts.gstatic.com" crossorigin>
<link href="https://fonts.googleapis.com/css2?family=JetBrains+Mono:wght@300;400;500&family=Outfit:wght@300;400;500;600&display=swap" rel="stylesheet">
<style>
  :root{--bg:#f5f6fa;--paper:#ffffff;--ink:#2f3640;--ink2:#111111;--muted:#7f8fa6;--accent:#e84118;--accent2:#c23616;--hair:rgba(0,0,0,.08);--glow:rgba(232,65,24,.1);}
  *{box-sizing:border-box;margin:0;padding:0}
  html,body{height:100%}
  body{background:var(--bg);color:var(--ink);font-family:'JetBrains Mono',ui-monospace,monospace;font-size:13px;display:grid;place-items:center;-webkit-font-smoothing:antialiased;overflow:hidden}
  body::before{content:"";position:fixed;inset:0;pointer-events:none;background:radial-gradient(ellipse 600px 400px at 50% 30%,var(--glow),transparent)}
  .card{width:min(440px,92vw);background:var(--paper);border:1px solid var(--hair);border-radius:16px;padding:36px 38px;position:relative;z-index:2;box-shadow:0 15px 35px rgba(0,0,0,.05),0 0 0 1px rgba(255,255,255,.5) inset}
  .logo{width:80px;height:80px;margin:0 auto 18px}
  .logo img{width:100%;height:100%;object-fit:contain;filter:drop-shadow(0 4px 12px rgba(232,65,24,.2))}
  .badge{display:inline-flex;align-items:center;gap:6px;font-family:'Outfit',sans-serif;font-weight:500;font-size:10px;letter-spacing:.12em;text-transform:uppercase;color:var(--accent2);background:rgba(232,65,24,.08);border:1px solid rgba(232,65,24,.15);padding:4px 12px;border-radius:20px;margin-bottom:16px;margin-left:auto;margin-right:auto;display:flex;width:max-content}
  .badge .dot{width:6px;height:6px;border-radius:50%;background:var(--accent2);animation:pulse 2s ease infinite}
  @keyframes pulse{0%,100%{opacity:1}50%{opacity:.4}}
  h1{font-family:'Outfit',sans-serif;font-weight:500;font-size:20px;margin:0 0 4px;color:var(--ink2);text-align:center}
  .caret{display:inline-block;width:1.5px;height:.95em;background:var(--accent2);margin-left:5px;vertical-align:text-bottom;color:transparent;animation:blink 1.1s steps(2) infinite}
  @keyframes blink{50%{opacity:0}}
  p.sub{font-family:'Outfit',sans-serif;font-weight:300;color:var(--muted);margin:12px 0 24px;font-size:13px;line-height:1.6;text-align:center}
  .progress{height:4px;background:rgba(0,0,0,.06);border-radius:999px;overflow:hidden}
  .progress > div{height:100%;width:0;background:linear-gradient(90deg,var(--accent),var(--accent2));transition:width .15s ease}
  .meta{margin-top:10px;font-size:10.5px;color:var(--muted);display:flex;justify-content:space-between;align-items:center;letter-spacing:.02em}
  .meta .nonce{font-variant-numeric:tabular-nums}
  .foot{margin-top:24px;padding-top:16px;border-top:1px solid var(--hair);display:flex;justify-content:space-between;align-items:center;font-family:'Outfit',sans-serif;font-weight:300;font-size:11px;color:var(--muted)}
  .foot code{background:rgba(0,0,0,.04);padding:2px 8px;border-radius:4px;color:var(--ink);font-size:10px;font-family:'JetBrains Mono',monospace}
  .brand{font-weight:600;color:var(--accent2);letter-spacing:.04em;text-transform:uppercase;font-size:10px}
</style></head><body>
<div class="card">
  <div class="logo">
    <img src="data:image/webp;base64,"##;

pub const CHALLENGE_1: &'static str = r##"" alt="Project Aretuze">
  </div>
  <div class="badge"><span class="dot"></span>security check</div>
  <h1>Checking your browser<span class="caret"></span></h1>
  <p class="sub">A one-time browser proof is required before you continue.<br>This usually takes less than a second.</p>

  <div class="progress"><div id="p"></div></div>
  <div class="meta">
    <span id="status">solving proof of work…</span>
    <span class="nonce" id="nonce">0</span>
  </div>

  <div class="foot">
    <span>ref · <code>"##;

pub const CHALLENGE_2: &'static str = r##"</code></span>
    <span class="brand">Project Aretuze</span>
  </div>
</div>
<script>
(async () => {
  const C = ""##;

pub const CHALLENGE_3: &'static str = r##"", S = ""##;

pub const CHALLENGE_4: &'static str = r##"", E = "##;

pub const CHALLENGE_5: &'static str = r##", D = "##;

pub const CHALLENGE_6: &'static str = r##";
  const enc = new TextEncoder();
  const target = "0".repeat(D);
  const bar = document.getElementById("p");
  const nonceLbl = document.getElementById("nonce");
  const status = document.getElementById("status");
  let nonce = 0;
  const start = performance.now();
  while (true) {
    const dig = await crypto.subtle.digest("SHA-256", enc.encode(C + nonce));
    const hex = Array.from(new Uint8Array(dig)).map(b => b.toString(16).padStart(2,"0")).join("");
    if (hex.startsWith(target)) break;
    if ((nonce & 0xfff) === 0) {
      bar.style.width = Math.min(95, (performance.now()-start)/30) + "%";
      nonceLbl.textContent = nonce.toLocaleString();
      await new Promise(r => setTimeout(r, 0));
    }
    nonce++;
  }
  bar.style.width = "100%";
  nonceLbl.textContent = nonce.toLocaleString();
  status.textContent = "submitting…";
  const r = await fetch("/__2t1/verify", {
    method: "POST",
    headers: { "content-type": "application/json" },
    body: JSON.stringify({ c: C, n: String(nonce), s: S, e: E, d: D }),
    credentials: "same-origin",
  });
  if (r.ok) {
    status.textContent = "verified · redirecting…";
    setTimeout(() => location.reload(), 250);
  } else {
    document.querySelector("h1").textContent = "Verification failed.";
    status.textContent = "please refresh and try again";
  }
})();
</script>
</body></html>
"##;

pub const BIC_0: &'static str = r##"<!doctype html>
<html lang="en"><head>
<meta charset="utf-8"><meta name="viewport" content="width=device-width,initial-scale=1">
<title>Verifying…</title>
<link rel="preconnect" href="https://fonts.googleapis.com">
<link rel="preconnect" href="https://fonts.gstatic.com" crossorigin>
<link href="https://fonts.googleapis.com/css2?family=JetBrains+Mono:wght@300;400&family=Outfit:wght@300;400&display=swap" rel="stylesheet">
<style>
  :root{--bg:#f4f3ee;--paper:#fafaf6;--ink:#111;--muted:#8b8a84;--hair:rgba(17,17,17,.12);}
  *{box-sizing:border-box}html,body{margin:0;padding:0;height:100%}
  body{background:var(--bg);color:var(--ink);font-family:'JetBrains Mono',ui-monospace,monospace;font-size:13px;display:grid;place-items:center;-webkit-font-smoothing:antialiased;overflow:hidden}
  body::before{content:"";position:fixed;inset:0;pointer-events:none;background:radial-gradient(circle at 20% 10%,rgba(17,17,17,.025),transparent 40%),radial-gradient(circle at 80% 80%,rgba(17,17,17,.02),transparent 50%)}
  .box{width:min(380px,92vw);background:var(--paper);border:1px solid var(--hair);border-radius:10px;padding:24px 28px;position:relative;z-index:2;box-shadow:0 8px 24px rgba(17,17,17,.05)}
  .tag{font-family:'Outfit',sans-serif;font-weight:400;font-size:10px;letter-spacing:.08em;text-transform:uppercase;color:var(--muted);margin-bottom:8px}
  h1{font-family:'Outfit',sans-serif;font-weight:300;font-size:15px;margin:0 0 6px}
  .caret{display:inline-block;width:1.5px;height:.95em;background:var(--ink);margin-left:4px;vertical-align:text-bottom;color:transparent;animation:b 1.1s steps(2) infinite}
  @keyframes b{50%{opacity:0}}
  .sub{font-family:'Outfit',sans-serif;font-weight:300;color:var(--muted);margin:8px 0 14px;font-size:12px}
  .bar{height:2px;background:rgba(17,17,17,.08);border-radius:999px;overflow:hidden}
  .bar>div{height:100%;width:0;background:var(--ink);transition:width .15s ease}
  .foot{margin-top:14px;display:flex;justify-content:space-between;font-family:'Outfit',sans-serif;font-weight:300;font-size:10.5px;color:var(--muted)}
  code{background:rgba(17,17,17,.04);padding:1px 5px;border-radius:3px;color:var(--ink);font-size:10px}
</style></head><body>
<div class="box">
  <div class="tag">i-waf · integrity</div>
  <h1>Verifying browser<span class="caret"></span></h1>
  <p class="sub">One moment — silent integrity check (no captcha).</p>
  <div class="bar"><div id="p"></div></div>
  <div class="foot"><span>ref · <code>"##;

pub const BIC_1: &'static str = r##"</code></span><span>I-Waf</span></div>
</div>
<script>
(async () => {
  const C=""##;

pub const BIC_2: &'static str = r##"", E="##;

pub const BIC_3: &'static str = r##", S=""##;

pub const BIC_4: &'static str = r##"", T=""##;

pub const BIC_5: &'static str = r##"";
  const bar=document.getElementById("p");
  // Quick integrity probe: features that headless minimal HTTP libs lack.
  const probe = !!(window.crypto && crypto.subtle && navigator && document.body
                   && new Date().getTimezoneOffset !== undefined);
  bar.style.width="40%";
  if (!probe) { document.querySelector("h1").textContent="Browser unsupported"; return; }
  // Compute SHA-256(challenge + "2t1bic"), keep first 16 hex chars.
  const enc=new TextEncoder();
  const buf=await crypto.subtle.digest("SHA-256", enc.encode(C+"2t1bic"));
  const hex=Array.from(new Uint8Array(buf)).map(b=>b.toString(16).padStart(2,"0")).join("");
  const proof=hex.slice(0,16);
  bar.style.width="80%";
  const r=await fetch("/__2t1/bic-verify",{
    method:"POST",
    headers:{"content-type":"application/json"},
    body:JSON.stringify({c:C,e:E,s:S,p:proof}),
    credentials:"same-origin",
  });
  bar.style.width="100%";
  if (r.ok) { location.replace(T||"/"); }
  else      { document.querySelector("h1").textContent="Verification failed."; }
})();
</script>
</body></html>
"##;

pub const CAPTCHA_0: &'static str = r##"<!doctype html>
<html lang="en"><head>
<meta charset="utf-8"><meta name="viewport" content="width=device-width,initial-scale=1">
<title>Verifying browser</title>
<link rel="preconnect" href="https://fonts.googleapis.com">
<link rel="preconnect" href="https://fonts.gstatic.com" crossorigin>
<link href="https://fonts.googleapis.com/css2?family=JetBrains+Mono:wght@300;400;500&family=Outfit:wght@200;300;400&display=swap" rel="stylesheet">
<script src=""##;

pub const CAPTCHA_1: &'static str = r##"" async defer></script>
<style>
  :root{--bg:#f4f3ee;--paper:#fafaf6;--ink:#111;--muted:#8b8a84;--hair:rgba(17,17,17,.12);}
  *{box-sizing:border-box}html,body{margin:0;padding:0;height:100%}
  body{background:var(--bg);color:var(--ink);font-family:'JetBrains Mono',monospace;font-size:13px;display:grid;place-items:center;-webkit-font-smoothing:antialiased;overflow:hidden}
  body::before{content:"";position:fixed;inset:0;pointer-events:none;background:radial-gradient(circle at 20% 10%,rgba(17,17,17,.025),transparent 40%),radial-gradient(circle at 80% 80%,rgba(17,17,17,.02),transparent 50%)}
  .box{width:min(420px,92vw);background:var(--paper);border:1px solid var(--hair);border-radius:10px;padding:30px 34px;position:relative;z-index:2;box-shadow:0 10px 30px rgba(17,17,17,.06);text-align:center}
  .tag{font-family:'Outfit',sans-serif;font-weight:400;font-size:10px;letter-spacing:.08em;text-transform:uppercase;color:var(--muted);margin-bottom:12px}
  h1{font-family:'Outfit',sans-serif;font-weight:300;font-size:18px;margin:0 0 4px}
  .sub{font-family:'Outfit',sans-serif;font-weight:300;color:var(--muted);margin:8px 0 22px;font-size:13px;line-height:1.6}
  .widget{margin:18px auto;display:inline-block;min-height:65px}
  .foot{margin-top:22px;padding-top:14px;border-top:1px dashed rgba(17,17,17,.07);display:flex;justify-content:space-between;align-items:center;font-family:'Outfit',sans-serif;font-weight:300;font-size:11px;color:var(--muted)}
  .foot code{background:rgba(17,17,17,.04);padding:2px 6px;border-radius:3px;color:var(--ink);font-size:10.5px}
  .err{color:#b3203a;margin-top:12px;font-size:12px}
</style></head><body>
<div class="box">
  <div class="tag">i-waf · "##;

pub const CAPTCHA_2: &'static str = r##" verification</div>
  <h1>Confirm you're human</h1>
  <p class="sub">A one-time check is required before you can continue.<br>This usually takes a couple of seconds.</p>
  <form id="f" method="POST" action="/__2t1/turnstile-verify">
    <div class="widget "##;

pub const CAPTCHA_3: &'static str = r##"" data-sitekey=""##;

pub const CAPTCHA_4: &'static str = r##"" data-callback="onCaptcha"></div>
    <p class="err" id="err" hidden>Verification failed. Please refresh and try again.</p>
  </form>
  <div class="foot"><span>ref · <code>"##;

pub const CAPTCHA_5: &'static str = r##"</code></span><span>I-Waf</span></div>
</div>
<script>
  const T = ""##;

pub const CAPTCHA_6: &'static str = r##"";
  function onCaptcha(token) {
    fetch("/__2t1/turnstile-verify", {
      method:"POST",
      headers:{"content-type":"application/json"},
      body: JSON.stringify({ token: token }),
      credentials:"same-origin",
    }).then(r => {
      if (r.ok) { location.replace(T || "/"); }
      else      { document.getElementById("err").hidden = false; }
    }).catch(() => { document.getElementById("err").hidden = false; });
  }
</script>
</body></html>
"##;

} // verus!
